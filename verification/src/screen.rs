//! The screen of a session, as it is shown in messages of a limited length.

use std::collections::hash_map::DefaultHasher;
use std::hash::{Hash, Hasher};
use vstd::prelude::*;
use vstd::std_specs::hash::*;
use crate::text;

verus! {

/// How many bytes of a screen go into one message.
pub const CHUNK_MAX: usize = 3800;

// ---------------------------------------------------------------------------------------------
// Pieces of a long line
// ---------------------------------------------------------------------------------------------

/// How many characters of `s`, from its start, fit into `room` bytes.
pub open spec fn fitting(s: Seq<char>, room: int) -> nat
    decreases s.len(),
{
    if s.len() == 0 || text::width(s[0]) > room {
        0
    } else {
        1 + fitting(s.drop_first(), room - text::width(s[0]))
    }
}

/// The number of characters that fit into some room is the largest number that does.
pub proof fn fitting_is_most(s: Seq<char>, room: int)
    requires
        room >= 0,
    ensures
        fitting(s, room) <= s.len(),
        text::utf8_len(s.take(fitting(s, room) as int)) <= room,
        fitting(s, room) < s.len() ==> text::utf8_len(s.take(fitting(s, room) as int + 1)) > room,
    decreases s.len(),
{
    let n = fitting(s, room) as int;
    if s.len() == 0 || text::width(s[0]) > room {
        assert(s.take(0) =~= Seq::<char>::empty());
        if s.len() > 0 {
            assert(s.take(1) =~= Seq::<char>::empty().push(s[0]));
            text::lemma_utf8_len_push(Seq::<char>::empty(), s[0]);
        }
    } else {
        let d = s.drop_first();
        fitting_is_most(d, room - text::width(s[0]));
        lemma_take_front(s, n);
        if n < s.len() {
            lemma_take_front(s, n + 1);
        }
    }
}

proof fn lemma_take_front(s: Seq<char>, n: int)
    requires
        0 < n <= s.len(),
    ensures
        text::utf8_len(s.take(n)) == text::width(s[0]) + text::utf8_len(s.drop_first().take(n - 1)),
{
    let one = Seq::<char>::empty().push(s[0]);
    assert(s.take(n) =~= one + s.drop_first().take(n - 1));
    text::lemma_utf8_len_concat(one, s.drop_first().take(n - 1));
    text::lemma_utf8_len_push(Seq::<char>::empty(), s[0]);
}

/// A long line in pieces, each of as many whole characters as fit into `max` bytes.
pub open spec fn pieces(s: Seq<char>, max: nat) -> Seq<Seq<char>>
    decreases s.len(),
    via pieces_decreases
{
    if s.len() == 0 || fitting(s, max as int) == 0 {
        seq![]
    } else {
        seq![s.take(fitting(s, max as int) as int)] + pieces(
            s.skip(fitting(s, max as int) as int),
            max,
        )
    }
}

#[via_fn]
proof fn pieces_decreases(s: Seq<char>, max: nat) {
    fitting_is_most(s, max as int);
}

/// Whether every character of a line fits into `max` bytes.
pub open spec fn line_fits(line: Seq<char>, max: nat) -> bool {
    forall|i: int| 0 <= i < line.len() ==> text::width(#[trigger] line[i]) <= max
}

/// Cuts a line into pieces and appends them to `out`.
fn cut_line(line: &str, max: usize, out: &mut Vec<String>)
    requires
        line_fits(line@, max as nat),
    ensures
        text::texts(final(out)@) == text::texts(old(out)@) + pieces(line@, max as nat),
{
    let v = text::chars_of(line);
    let mut p: usize = 0;
    proof {
        assert(v@.skip(0) =~= v@);
    }
    while p < v.len()
        invariant
            p <= v@.len(),
            line_fits(v@, max as nat),
            text::texts(out@) + pieces(v@.skip(p as int), max as nat) == text::texts(old(out)@)
                + pieces(v@, max as nat),
        decreases v@.len() - p,
    {
        let ghost rest = v@.skip(p as int);
        let mut end: usize = p;
        let mut room: usize = max;
        while end < v.len() && text::char_width(v[end]) <= room
            invariant
                p <= end <= v@.len(),
                rest == v@.skip(p as int),
                fitting(rest, max as int) == (end - p) + fitting(v@.skip(end as int), room as int),
            decreases v@.len() - end,
        {
            proof {
                assert(v@.skip(end as int).drop_first() =~= v@.skip(end + 1));
            }
            room -= text::char_width(v[end]);
            end += 1;
        }
        proof {
            assert(fitting(v@.skip(end as int), room as int) == 0);
            assert(rest[0] == v@[p as int]);
            assert(text::width(rest[0]) <= max);
        }
        let piece = text::text_between(&v, p, end);
        proof {
            let n = end - p;
            assert(fitting(rest, max as int) == n);
            assert(n > 0);
            assert(rest.take(n) =~= piece@);
            assert(rest.skip(n) =~= v@.skip(end as int));
            let before = text::texts(out@);
            let after = pieces(v@.skip(end as int), max as nat);
            assert(text::texts(out@.push(piece)) =~= before.push(piece@));
            assert(before + (seq![piece@] + after) =~= before.push(piece@) + after);
        }
        out.push(piece);
        p = end;
    }
    assert(text::texts(out@) + pieces(v@.skip(p as int), max as nat) =~= text::texts(out@));
}

// ---------------------------------------------------------------------------------------------
// Chunks of a text
// ---------------------------------------------------------------------------------------------

/// Lines on their way into chunks: the chunks that are full, and the one that is being filled.
pub struct Filling {
    pub full: Seq<Seq<char>>,
    pub current: Seq<char>,
}

impl Filling {
    /// The chunks that there are.
    pub open spec fn chunks(self) -> Seq<Seq<char>> {
        if self.current.len() == 0 {
            self.full
        } else {
            self.full.push(self.current)
        }
    }

    /// One more line goes in. It joins the chunk that is being filled, on a line of its own, if
    /// there is room for it; otherwise it starts a new chunk. A line that is longer than a chunk is
    /// cut into pieces, each a chunk of its own.
    pub open spec fn with_line(self, line: Seq<char>, max: nat) -> Filling {
        if text::utf8_len(line) > max {
            Filling { full: self.chunks() + pieces(line, max), current: seq![] }
        } else if self.current.len() == 0 {
            Filling { full: self.full, current: line }
        } else if text::utf8_len(self.current) + 1 + text::utf8_len(line) > max {
            Filling { full: self.full.push(self.current), current: line }
        } else {
            Filling { full: self.full, current: self.current.push('\n') + line }
        }
    }
}

/// What becomes of lines that go into chunks of at most `max` bytes, one after the other.
pub open spec fn filled(lines: Seq<Seq<char>>, max: nat) -> Filling
    decreases lines.len(),
{
    if lines.len() == 0 {
        Filling { full: seq![], current: seq![] }
    } else {
        filled(lines.drop_last(), max).with_line(lines.last(), max)
    }
}

/// A text in chunks of at most `max` bytes.
pub open spec fn chunks_of(s: Seq<char>, max: nat) -> Seq<Seq<char>> {
    filled(text::lines(s), max).chunks()
}

/// Whether every character of every line of a text fits into `max` bytes.
pub open spec fn lines_fit(s: Seq<char>, max: nat) -> bool {
    forall|k: int| 0 <= k < text::lines(s).len() ==> line_fits(#[trigger] text::lines(s)[k], max)
}

proof fn lemma_nonempty_len(s: Seq<char>)
    ensures
        s.len() == 0 <==> text::utf8_len(s) == 0,
{
    if s.len() > 0 {
        assert(s =~= s.drop_last().push(s.last()));
        text::lemma_utf8_len_push(s.drop_last(), s.last());
    }
}

/// Cuts a text into chunks of at most `max` bytes, at the ends of its lines where it can.
pub fn chunk_text(s: &str, max: usize) -> (r: Vec<String>)
    requires
        lines_fit(s@, max as nat),
    ensures
        text::texts(r@) == chunks_of(s@, max as nat),
{
    let lines = text::split_lines(s);
    let ghost all = text::texts(lines@);
    let mut out: Vec<String> = Vec::new();
    let mut current = String::new();
    let mut i: usize = 0;
    assert(text::texts(out@) =~= seq![]);
    assert(current@ =~= seq![]);
    while i < lines.len()
        invariant
            i <= lines@.len(),
            all == text::texts(lines@),
            all == text::lines(s@),
            lines_fit(s@, max as nat),
            text::texts(out@) == filled(all.take(i as int), max as nat).full,
            current@ == filled(all.take(i as int), max as nat).current,
            text::utf8_len(current@) <= max,
        decreases lines@.len() - i,
    {
        let line = lines[i].as_str();
        let len = text::byte_len(line);
        let filling = text::byte_len(current.as_str());
        let ghost before = filled(all.take(i as int), max as nat);
        proof {
            assert(all.take(i + 1).drop_last() =~= all.take(i as int));
            assert(all.take(i + 1).last() == line@);
            assert(line@ == text::lines(s@)[i as int]);
            lemma_nonempty_len(current@);
            assert(text::texts(out@.push(current)) =~= text::texts(out@).push(current@));
        }
        if len > max {
            if filling > 0 {
                out.push(current);
                current = String::new();
            }
            assert(text::texts(out@) == before.chunks());
            cut_line(line, max, &mut out);
            assert(current@ =~= seq![]);
        } else if filling == 0 {
            current = line.to_string();
        } else if max - filling < 1 || len > max - filling - 1 {
            out.push(current);
            current = line.to_string();
        } else {
            proof {
                text::lemma_utf8_len_push(current@, '\n');
                text::lemma_utf8_len_concat(current@.push('\n'), line@);
            }
            current.push('\n');
            current.append(line);
        }
        proof {
            lemma_nonempty_len(current@);
        }
        i += 1;
    }
    proof {
        assert(all.take(i as int) =~= all);
        assert(text::texts(out@.push(current)) =~= text::texts(out@).push(current@));
    }
    if !current.as_str().is_empty() {
        out.push(current);
    }
    out
}

// ---------------------------------------------------------------------------------------------
// What chunks hold
// ---------------------------------------------------------------------------------------------

/// Texts in one, one after the other.
pub open spec fn all_in_one(list: Seq<Seq<char>>) -> Seq<char>
    decreases list.len(),
{
    if list.len() == 0 {
        seq![]
    } else {
        all_in_one(list.drop_last()) + list.last()
    }
}

/// A text without its line feeds.
pub open spec fn without_feeds(s: Seq<char>) -> Seq<char>
    decreases s.len(),
{
    if s.len() == 0 {
        seq![]
    } else if s.last() == '\n' {
        without_feeds(s.drop_last())
    } else {
        without_feeds(s.drop_last()).push(s.last())
    }
}

proof fn lemma_without_feeds_concat(a: Seq<char>, b: Seq<char>)
    ensures
        without_feeds(a + b) == without_feeds(a) + without_feeds(b),
    decreases b.len(),
{
    if b.len() == 0 {
        assert(a + b =~= a);
        assert(without_feeds(a) + without_feeds(b) =~= without_feeds(a));
    } else {
        assert((a + b).drop_last() =~= a + b.drop_last());
        lemma_without_feeds_concat(a, b.drop_last());
        if b.last() != '\n' {
            let w = without_feeds(b.drop_last());
            assert((without_feeds(a) + w).push(b.last()) =~= without_feeds(a) + w.push(b.last()));
        }
    }
}

proof fn lemma_no_feeds(s: Seq<char>)
    requires
        forall|i: int| 0 <= i < s.len() ==> #[trigger] s[i] != '\n',
    ensures
        without_feeds(s) == s,
    decreases s.len(),
{
    if s.len() > 0 {
        lemma_no_feeds(s.drop_last());
        assert(s.drop_last().push(s.last()) =~= s);
    } else {
        assert(s =~= seq![]);
    }
}

proof fn lemma_all_in_one_concat(a: Seq<Seq<char>>, b: Seq<Seq<char>>)
    ensures
        all_in_one(a + b) == all_in_one(a) + all_in_one(b),
    decreases b.len(),
{
    if b.len() == 0 {
        assert(a + b =~= a);
        assert(all_in_one(a) + all_in_one(b) =~= all_in_one(a));
    } else {
        assert((a + b).drop_last() =~= a + b.drop_last());
        lemma_all_in_one_concat(a, b.drop_last());
        assert(all_in_one(a) + all_in_one(b.drop_last()) + b.last() =~= all_in_one(a) + (all_in_one(
            b.drop_last(),
        ) + b.last()));
    }
}

proof fn lemma_all_in_one_push(a: Seq<Seq<char>>, b: Seq<char>)
    ensures
        all_in_one(a.push(b)) == all_in_one(a) + b,
{
    assert(a.push(b).drop_last() =~= a);
}

proof fn lemma_pieces(s: Seq<char>, max: nat)
    requires
        line_fits(s, max),
    ensures
        all_in_one(pieces(s, max)) == s,
        forall|k: int|
            0 <= k < pieces(s, max).len() ==> 0 < (#[trigger] pieces(s, max)[k]).len()
                && text::utf8_len(pieces(s, max)[k]) <= max,
    decreases s.len(),
{
    if s.len() == 0 {
        assert(all_in_one(pieces(s, max)) =~= s);
    } else {
        fitting_is_most(s, max as int);
        assert(text::width(s[0]) <= max);
        let n = fitting(s, max as int) as int;
        let rest = s.skip(n);
        assert forall|i: int| 0 <= i < rest.len() implies text::width(#[trigger] rest[i])
            <= max by {
            assert(rest[i] == s[i + n]);
        }
        lemma_pieces(rest, max);
        let one = seq![s.take(n)];
        lemma_all_in_one_concat(one, pieces(rest, max));
        lemma_all_in_one_push(seq![], s.take(n));
        assert(one =~= Seq::<Seq<char>>::empty().push(s.take(n)));
        assert(all_in_one(one) =~= s.take(n));
        assert(s.take(n) + rest =~= s);
        let all = pieces(s, max);
        assert forall|k: int| 0 <= k < all.len() implies 0 < (#[trigger] all[k]).len()
            && text::utf8_len(all[k]) <= max by {
            if k > 0 {
                assert(all[k] == pieces(rest, max)[k - 1]);
            }
        }
    }
}

/// Whether every text of a list has one character at least and at most `max` bytes.
pub open spec fn all_fit(list: Seq<Seq<char>>, max: nat) -> bool {
    forall|k: int|
        0 <= k < list.len() ==> 0 < (#[trigger] list[k]).len() && text::utf8_len(list[k]) <= max
}

proof fn lemma_filled(lines: Seq<Seq<char>>, max: nat)
    requires
        forall|k: int| 0 <= k < lines.len() ==> line_fits(#[trigger] lines[k], max),
        forall|k: int, i: int|
            0 <= k < lines.len() && 0 <= i < lines[k].len() ==> #[trigger] lines[k][i] != '\n',
    ensures
        all_fit(filled(lines, max).full, max),
        text::utf8_len(filled(lines, max).current) <= max,
        without_feeds(all_in_one(filled(lines, max).chunks())) == all_in_one(lines),
    decreases lines.len(),
{
    let f = filled(lines, max);
    if lines.len() == 0 {
        assert(all_in_one(f.chunks()) =~= seq![]);
    } else {
        let front = lines.drop_last();
        let line = lines.last();
        let g = filled(front, max);
        assert(line == lines[lines.len() - 1]);
        assert(line_fits(line, max));
        assert forall|k: int| 0 <= k < front.len() implies line_fits(#[trigger] front[k], max) by {
            assert(front[k] == lines[k]);
        }
        assert forall|k: int, i: int|
            0 <= k < front.len() && 0 <= i < front[k].len() implies #[trigger] front[k][i]
            != '\n' by {
            assert(lines[k][i] != '\n');
        }
        lemma_filled(front, max);
        assert forall|i: int| 0 <= i < line.len() implies #[trigger] line[i] != '\n' by {
            assert(lines[lines.len() - 1][i] != '\n');
        }
        lemma_no_feeds(line);
        lemma_nonempty_len(line);
        lemma_nonempty_len(g.current);
        assert(all_fit(g.chunks(), max)) by {
            assert forall|k: int| 0 <= k < g.chunks().len() implies 0 < (
            #[trigger] g.chunks()[k]).len() && text::utf8_len(g.chunks()[k]) <= max by {
                if k < g.full.len() {
                    assert(g.chunks()[k] == g.full[k]);
                }
            }
        }
        lemma_all_in_one_push(g.full, g.current);
        lemma_without_feeds_concat(all_in_one(g.chunks()), line);
        if text::utf8_len(line) > max {
            lemma_pieces(line, max);
            lemma_all_in_one_concat(g.chunks(), pieces(line, max));
            assert(f.chunks() == g.chunks() + pieces(line, max));
            assert(all_fit(f.full, max)) by {
                assert forall|k: int| 0 <= k < f.full.len() implies 0 < (
                #[trigger] f.full[k]).len() && text::utf8_len(f.full[k]) <= max by {
                    if k < g.chunks().len() {
                        assert(f.full[k] == g.chunks()[k]);
                    } else {
                        assert(f.full[k] == pieces(line, max)[k - g.chunks().len()]);
                    }
                }
            }
            assert(text::utf8_len(f.current) == 0);
        } else if g.current.len() == 0 {
            lemma_all_in_one_push(g.full, line);
            if line.len() == 0 {
                assert(all_in_one(g.full) + line =~= all_in_one(g.full));
            }
        } else if text::utf8_len(g.current) + 1 + text::utf8_len(line) > max {
            lemma_all_in_one_push(g.full.push(g.current), line);
            if line.len() == 0 {
                assert(all_in_one(g.chunks()) + line =~= all_in_one(g.chunks()));
            }
        } else {
            let c = g.current.push('\n') + line;
            text::lemma_utf8_len_push(g.current, '\n');
            text::lemma_utf8_len_concat(g.current.push('\n'), line);
            lemma_all_in_one_push(g.full, c);
            let a = all_in_one(g.full);
            let p = a + g.current;
            assert(a + c =~= p.push('\n') + line);
            lemma_without_feeds_concat(p.push('\n'), line);
            assert(p.push('\n').drop_last() =~= p);
        }
    }
}

/// Every chunk of a text has one character at least and at most `max` bytes.
pub proof fn chunks_fit(s: Seq<char>, max: nat)
    requires
        lines_fit(s, max),
    ensures
        all_fit(chunks_of(s, max), max),
{
    let f = filled(text::lines(s), max);
    text::lemma_lines_hold_no_feed(s);
    lemma_filled(text::lines(s), max);
    assert forall|k: int| 0 <= k < f.chunks().len() implies 0 < (#[trigger] f.chunks()[k]).len()
        && text::utf8_len(f.chunks()[k]) <= max by {
        if k < f.full.len() {
            assert(f.chunks()[k] == f.full[k]);
        }
    }
}

/// Nothing of a text is lost or moved when it is cut into chunks: but for line feeds, the chunks
/// hold the lines of the text, one after the other.
pub proof fn chunks_lose_nothing(s: Seq<char>, max: nat)
    requires
        lines_fit(s, max),
    ensures
        without_feeds(all_in_one(chunks_of(s, max))) == all_in_one(text::lines(s)),
{
    text::lemma_lines_hold_no_feed(s);
    lemma_filled(text::lines(s), max);
}

/// The first line of a chunk.
pub open spec fn first_line(chunk: Seq<char>) -> Seq<char> {
    chunk.take(text::line_len(chunk) as int)
}

/// Whether there is no room in a chunk for one more line.
pub open spec fn no_room(chunk: Seq<char>, line: Seq<char>, max: nat) -> bool {
    text::utf8_len(chunk) + 1 + text::utf8_len(line) > max
}

proof fn lemma_line_len_kept(c: Seq<char>, after: Seq<char>)
    ensures
        text::line_len(c) <= c.len(),
        text::line_len(c.push('\n') + after) == text::line_len(c),
    decreases c.len(),
{
    let s = c.push('\n') + after;
    if c.len() > 0 && c[0] != '\n' {
        lemma_line_len_kept(c.drop_first(), after);
        assert(s.drop_first() =~= c.drop_first().push('\n') + after);
        assert(s[0] == c[0]);
    } else if c.len() > 0 {
        assert(s[0] == c[0]);
    }
}

proof fn lemma_greedy(lines: Seq<Seq<char>>, max: nat)
    requires
        forall|k: int| 0 <= k < lines.len() ==> text::utf8_len(#[trigger] lines[k]) <= max,
        forall|k: int, i: int|
            0 <= k < lines.len() && 0 <= i < lines[k].len() ==> #[trigger] lines[k][i] != '\n',
    ensures
        forall|k: int|
            0 <= k < filled(lines, max).full.len() - 1 ==> no_room(
                #[trigger] filled(lines, max).full[k],
                first_line(filled(lines, max).full[k + 1]),
                max,
            ),
        filled(lines, max).full.len() > 0 ==> no_room(
            filled(lines, max).full.last(),
            first_line(filled(lines, max).current),
            max,
        ),
    decreases lines.len(),
{
    if lines.len() > 0 {
        let front = lines.drop_last();
        let line = lines.last();
        let f = filled(lines, max);
        let g = filled(front, max);
        assert(line == lines[lines.len() - 1]);
        assert forall|k: int| 0 <= k < front.len() implies text::utf8_len(#[trigger] front[k])
            <= max by {
            assert(front[k] == lines[k]);
        }
        assert forall|k: int, i: int|
            0 <= k < front.len() && 0 <= i < front[k].len() implies #[trigger] front[k][i]
            != '\n' by {
            assert(lines[k][i] != '\n');
        }
        lemma_greedy(front, max);
        assert(text::utf8_len(line) <= max);
        assert forall|i: int| 0 <= i < line.len() implies #[trigger] line[i] != '\n' by {
            assert(lines[lines.len() - 1][i] != '\n');
        }
        text::lemma_first_line(line, seq![]);
        lemma_line_len_kept(line, seq![]);
        assert(first_line(line) =~= line);
        if g.current.len() == 0 {
            assert(first_line(g.current).len() == 0);
            lemma_nonempty_len(first_line(g.current));
        } else if no_room(g.current, line, max) {
            assert forall|k: int| 0 <= k < f.full.len() - 1 implies no_room(
                #[trigger] f.full[k],
                first_line(f.full[k + 1]),
                max,
            ) by {
                assert(f.full[k] == g.full[k]);
                if k + 1 < g.full.len() {
                    assert(f.full[k + 1] == g.full[k + 1]);
                }
            }
        } else {
            lemma_line_len_kept(g.current, line);
            assert(first_line(f.current) =~= first_line(g.current));
        }
    }
}

/// Chunks are filled as far as they can be: in a text without a line that is longer than a chunk, the
/// first line of a chunk does not fit into the chunk before it.
pub proof fn chunks_are_filled(s: Seq<char>, max: nat, k: int)
    requires
        forall|i: int|
            0 <= i < text::lines(s).len() ==> text::utf8_len(#[trigger] text::lines(s)[i]) <= max,
        0 <= k < chunks_of(s, max).len() - 1,
    ensures
        no_room(chunks_of(s, max)[k], first_line(chunks_of(s, max)[k + 1]), max),
{
    let f = filled(text::lines(s), max);
    text::lemma_lines_hold_no_feed(s);
    lemma_greedy(text::lines(s), max);
    assert(f.chunks()[k] == f.full[k]);
    if k + 1 < f.full.len() {
        assert(f.chunks()[k + 1] == f.full[k + 1]);
    }
}

/// Lines in one text, with a line feed between each two of them.
pub open spec fn in_lines(lines: Seq<Seq<char>>) -> Seq<char>
    decreases lines.len(),
{
    if lines.len() == 0 {
        seq![]
    } else if lines.len() == 1 {
        lines[0]
    } else {
        in_lines(lines.drop_last()).push('\n') + lines.last()
    }
}

/// A text without the one line feed that it may end with.
pub open spec fn without_last_feed(s: Seq<char>) -> Seq<char> {
    if s.len() > 0 && s.last() == '\n' {
        s.drop_last()
    } else {
        s
    }
}

proof fn lemma_in_lines_front(a: Seq<char>, m: Seq<Seq<char>>)
    requires
        m.len() > 0,
    ensures
        in_lines(seq![a] + m) == a.push('\n') + in_lines(m),
    decreases m.len(),
{
    let l = seq![a] + m;
    if m.len() == 1 {
        assert(l.drop_last() =~= seq![a]);
        assert(in_lines(l.drop_last()) == a);
    } else {
        lemma_in_lines_front(a, m.drop_last());
        assert(l.drop_last() =~= seq![a] + m.drop_last());
        let before = in_lines(m.drop_last());
        assert((a.push('\n') + before).push('\n') + m.last() =~= a.push('\n') + (before.push('\n')
            + m.last()));
    }
}

proof fn lemma_lines_in_one(s: Seq<char>)
    requires
        s.len() > 0,
        forall|i: int| 0 <= i < s.len() ==> #[trigger] s[i] != '\r',
    ensures
        text::lines(s).len() > 0,
        in_lines(text::lines(s)) == without_last_feed(s),
        s[0] != '\n' ==> text::lines(s)[0].len() > 0,
    decreases s.len(),
{
    text::lemma_line_len(s);
    let n = text::line_len(s) as int;
    if n >= s.len() {
        assert(s.last() == s[s.len() - 1]);
    } else {
        let first = s.take(n);
        let rest = s.skip(n + 1);
        assert(text::without_return(first) == first) by {
            if n > 0 {
                assert(first.last() == s[n - 1]);
            }
        }
        if rest.len() == 0 {
            assert(text::lines(rest).len() == 0);
            assert(text::lines(s) =~= seq![first]);
            assert(s.drop_last() =~= first);
        } else {
            assert forall|i: int| 0 <= i < rest.len() implies #[trigger] rest[i] != '\r' by {
                assert(rest[i] == s[i + n + 1]);
            }
            lemma_lines_in_one(rest);
            lemma_in_lines_front(first, text::lines(rest));
            assert(rest.last() == s.last());
            assert(without_last_feed(s) =~= first.push('\n') + without_last_feed(rest));
        }
    }
}

proof fn lemma_one_chunk(lines: Seq<Seq<char>>, max: nat)
    requires
        lines.len() > 0,
        lines[0].len() > 0,
        text::utf8_len(in_lines(lines)) <= max,
    ensures
        filled(lines, max) == (Filling { full: seq![], current: in_lines(lines) }),
        in_lines(lines).len() > 0,
    decreases lines.len(),
{
    let front = lines.drop_last();
    if lines.len() == 1 {
        assert(filled(front, max).full =~= seq![]);
    } else {
        let before = in_lines(front);
        text::lemma_utf8_len_push(before, '\n');
        text::lemma_utf8_len_concat(before.push('\n'), lines.last());
        lemma_one_chunk(front, max);
    }
}

/// A short text stays in one: a text that fits into a chunk, holds no carriage return and does not
/// start with a line feed is one chunk, but for a line feed at its end.
pub proof fn short_text_stays_in_one(s: Seq<char>, max: nat)
    requires
        s.len() > 0,
        s[0] != '\n',
        forall|i: int| 0 <= i < s.len() ==> #[trigger] s[i] != '\r',
        text::utf8_len(s) <= max,
    ensures
        chunks_of(s, max) == seq![without_last_feed(s)],
{
    lemma_lines_in_one(s);
    if s.last() == '\n' {
        assert(s =~= s.drop_last().push('\n'));
        text::lemma_utf8_len_push(s.drop_last(), '\n');
    }
    lemma_one_chunk(text::lines(s), max);
    assert(chunks_of(s, max) =~= seq![without_last_feed(s)]);
}

/// Every character fits into four bytes, so any text can be cut into chunks of four bytes or more.
pub proof fn any_text_can_be_cut(s: Seq<char>, max: nat)
    requires
        max >= 4,
    ensures
        lines_fit(s, max),
{
}

// ---------------------------------------------------------------------------------------------
// Messages
// ---------------------------------------------------------------------------------------------

/// A message, and whether it is written in Markdown.
#[derive(Debug)]
pub struct Message {
    pub text: String,
    pub markdown: bool,
}

/// What is said in each of a list of messages, and whether it is Markdown.
pub open spec fn said(list: Seq<Message>) -> Seq<(Seq<char>, bool)> {
    Seq::new(list.len(), |i: int| (list[i].text@, list[i].markdown))
}

/// A text with a backslash before each backquote and each backslash.
pub open spec fn escaped(s: Seq<char>) -> Seq<char>
    decreases s.len(),
{
    if s.len() == 0 {
        seq![]
    } else {
        let before = escaped(s.drop_last());
        if s.last() == '`' || s.last() == '\\' {
            before.push('\\').push(s.last())
        } else {
            before.push(s.last())
        }
    }
}

/// `teloxide::utils::markdown::escape_code` puts a backslash before each backquote and each
/// backslash of a text, and leaves its other characters as they are.
#[verifier::external_body]
fn escape_code(s: &str) -> (r: String)
    ensures
        r@ == escaped(s@),
{
    teloxide::utils::markdown::escape_code(s)
}

/// A text as a block of code in Markdown.
pub open spec fn code_block(s: Seq<char>) -> Seq<char> {
    "```\n"@ + escaped(s) + "\n```"@
}

/// A text without the line feeds and the spaces that it ends with.
pub open spec fn without_tail(s: Seq<char>) -> Seq<char>
    decreases s.len(),
{
    if s.len() > 0 && (s.last() == '\n' || s.last() == ' ') {
        without_tail(s.drop_last())
    } else {
        s
    }
}

/// Cuts off the line feeds and the spaces that a text ends with.
pub fn trim_tail(s: &str) -> (r: String)
    ensures
        r@ == without_tail(s@),
{
    let v = text::chars_of(s);
    let mut end: usize = v.len();
    assert(v@.take(end as int) =~= v@);
    while end > 0 && (v[end - 1] == '\n' || v[end - 1] == ' ')
        invariant
            end <= v@.len(),
            without_tail(v@) == without_tail(v@.take(end as int)),
        decreases end,
    {
        assert(v@.take(end as int).drop_last() =~= v@.take(end - 1));
        end -= 1;
    }
    assert(v@.subrange(0, end as int) =~= v@.take(end as int));
    text::text_between(&v, 0, end)
}

/// The messages that show a screen: that it is empty, or its text in blocks of code.
pub open spec fn screen_said(raw: Seq<char>) -> Seq<(Seq<char>, bool)> {
    let s = without_tail(raw);
    if text::is_blank(s) {
        seq![("(empty)"@, false)]
    } else {
        let chunks = chunks_of(s, CHUNK_MAX as nat);
        Seq::new(chunks.len(), |i: int| (code_block(chunks[i]), true))
    }
}

/// The messages that show a screen, in order.
pub fn send_screen(raw: &str) -> (r: Vec<Message>)
    ensures
        said(r@) == screen_said(raw@),
{
    let s = trim_tail(raw);
    let mut r: Vec<Message> = Vec::new();
    if text::blank(s.as_str()) {
        r.push(Message { text: "(empty)".to_string(), markdown: false });
        assert(said(r@) =~= screen_said(raw@));
        return r;
    }
    proof {
        any_text_can_be_cut(s@, CHUNK_MAX as nat);
    }
    let chunks = chunk_text(s.as_str(), CHUNK_MAX);
    let ghost all = chunks_of(s@, CHUNK_MAX as nat);
    let mut i: usize = 0;
    while i < chunks.len()
        invariant
            i <= chunks@.len(),
            all == text::texts(chunks@),
            r@.len() == i,
            forall|j: int|
                0 <= j < i ==> (#[trigger] r@[j]).text@ == code_block(all[j]) && r@[j].markdown,
        decreases chunks@.len() - i,
    {
        let code = escape_code(chunks[i].as_str());
        r.push(Message { text: text::around("```\n", code.as_str(), "\n```"), markdown: true });
        i += 1;
    }
    assert(said(r@) =~= screen_said(raw@));
    r
}

/// What a reader of Markdown takes for the text of a block of code: what stands before the first
/// backquote that has no backslash of its own, where a backslash and a character stand for the
/// character.
pub open spec fn code_read(s: Seq<char>) -> Seq<char>
    decreases s.len(),
{
    if s.len() == 0 || s[0] == '`' {
        seq![]
    } else if s[0] == '\\' && s.len() > 1 {
        seq![s[1]] + code_read(s.skip(2))
    } else {
        seq![s[0]] + code_read(s.skip(1))
    }
}

proof fn lemma_escaped_front(s: Seq<char>)
    requires
        s.len() > 0,
    ensures
        escaped(s) == (if s[0] == '`' || s[0] == '\\' {
            seq!['\\', s[0]]
        } else {
            seq![s[0]]
        }) + escaped(s.drop_first()),
    decreases s.len(),
{
    let front = if s[0] == '`' || s[0] == '\\' {
        seq!['\\', s[0]]
    } else {
        seq![s[0]]
    };
    let d = s.drop_first();
    if s.len() == 1 {
        assert(s.drop_last() =~= seq![]);
        assert(d =~= seq![]);
        assert(escaped(s) =~= front + escaped(d));
    } else {
        lemma_escaped_front(s.drop_last());
        assert(s.drop_last().drop_first() =~= d.drop_last());
        assert(escaped(s) =~= front + escaped(d));
    }
}

/// A text whose backquotes and backslashes are escaped is read back as it was, so no backquote of a
/// screen ends the block of code that the screen is shown in.
pub proof fn escaped_read_back(s: Seq<char>, rest: Seq<char>)
    ensures
        code_read(escaped(s) + rest) == s + code_read(rest),
    decreases s.len(),
{
    if s.len() == 0 {
        assert(escaped(s) + rest =~= rest);
        assert(s + code_read(rest) =~= code_read(rest));
    } else {
        let d = s.drop_first();
        let all = escaped(s) + rest;
        lemma_escaped_front(s);
        escaped_read_back(d, rest);
        if s[0] == '`' || s[0] == '\\' {
            assert(all.skip(2) =~= escaped(d) + rest);
        } else {
            assert(all.skip(1) =~= escaped(d) + rest);
        }
        assert(code_read(all) =~= seq![s[0]] + (d + code_read(rest)));
        assert(seq![s[0]] + (d + code_read(rest)) =~= s + code_read(rest));
    }
}

// ---------------------------------------------------------------------------------------------
// Telling screens apart
// ---------------------------------------------------------------------------------------------

/// What is written into a hasher when a string is hashed.
pub uninterp spec fn hash_writes(s: Seq<char>) -> Seq<Seq<u8>>;

/// `<str as Hash>::hash` writes a string into a hasher. What is written depends on nothing but the
/// string, and comes behind what was written before; how the string is written is left to its name.
#[verifier::external_body]
fn hash_into(s: &str, h: &mut DefaultHasher)
    ensures
        final(h)@ == old(h)@ + hash_writes(s@),
{
    s.hash(h)
}

/// The hash of a text.
pub open spec fn text_hash(s: Seq<char>) -> u64 {
    DefaultHasher::spec_finish(hash_writes(s))
}

/// The hash of a string.
pub fn hash_str(s: &str) -> (r: u64)
    ensures
        r == text_hash(s@),
{
    let mut h = DefaultHasher::new();
    hash_into(s, &mut h);
    assert(h@ =~= hash_writes(s@));
    h.finish()
}

// ---------------------------------------------------------------------------------------------
// What the messages show
// ---------------------------------------------------------------------------------------------

/// What is cut off at the end of a text is line feeds and spaces, and all of them.
pub proof fn tail_is_cut_off(s: Seq<char>) -> (tail: Seq<char>)
    ensures
        s == without_tail(s) + tail,
        forall|i: int| 0 <= i < tail.len() ==> #[trigger] tail[i] == '\n' || tail[i] == ' ',
        without_tail(s).len() > 0 ==> without_tail(s)[without_tail(s).len() - 1] != '\n'
            && without_tail(s)[without_tail(s).len() - 1] != ' ',
    decreases s.len(),
{
    if s.len() > 0 && (s.last() == '\n' || s.last() == ' ') {
        let t = tail_is_cut_off(s.drop_last());
        let tail = t.push(s.last());
        assert(s =~= s.drop_last().push(s.last()));
        assert(s =~= without_tail(s) + tail);
        tail
    } else {
        assert(s =~= s + Seq::<char>::empty());
        Seq::empty()
    }
}

/// Texts in one are one after the other, and a text without its line feeds is the rest of it in its
/// order.
pub proof fn one_after_the_other(list: Seq<Seq<char>>, a: Seq<char>, c: char)
    ensures
        all_in_one(Seq::<Seq<char>>::empty()) == Seq::<char>::empty(),
        all_in_one(list.push(a)) == all_in_one(list) + a,
        without_feeds(Seq::<char>::empty()) == Seq::<char>::empty(),
        without_feeds(a.push(c)) == if c == '\n' {
            without_feeds(a)
        } else {
            without_feeds(a).push(c)
        },
{
    lemma_all_in_one_push(list, a);
    assert(a.push(c).drop_last() =~= a);
}

/// The text that a reader of Markdown takes from a message: that of the block of code, behind the
/// three backquotes and the line feed that open it.
pub open spec fn code_shown(message: Seq<char>) -> Seq<char> {
    code_read(message.skip(4))
}

/// The texts of messages, one after the other in the order of the messages, but for line feeds.
pub open spec fn all_shown(messages: Seq<(Seq<char>, bool)>) -> Seq<char>
    decreases messages.len(),
{
    if messages.len() == 0 {
        seq![]
    } else {
        all_shown(messages.drop_last()) + without_feeds(code_shown(messages.last().0))
    }
}

proof fn lemma_code_shown(chunk: Seq<char>)
    ensures
        code_shown(code_block(chunk)) == chunk.push('\n'),
        code_block(chunk).take(4) == seq!['`', '`', '`', '\n'],
{
    reveal_strlit("```\n");
    reveal_strlit("\n```");
    let open = "```\n"@;
    let close = "\n```"@;
    let block = code_block(chunk);
    assert(open.len() == 4 && close.len() == 4);
    assert(block.skip(4) =~= escaped(chunk) + close);
    assert(block.take(4) =~= seq!['`', '`', '`', '\n']);
    escaped_read_back(chunk, close);
    assert(close[0] == '\n' && close[1] == '`');
    assert(close.skip(1)[0] == '`');
    reveal_with_fuel(code_read, 2);
    assert(code_read(close) =~= seq!['\n']);
    assert(chunk + seq!['\n'] =~= chunk.push('\n'));
}

spec fn blocks_of(chunks: Seq<Seq<char>>) -> Seq<(Seq<char>, bool)> {
    Seq::new(chunks.len(), |k: int| (code_block(chunks[k]), true))
}

proof fn lemma_all_shown(chunks: Seq<Seq<char>>)
    ensures
        all_shown(blocks_of(chunks)) == without_feeds(all_in_one(chunks)),
    decreases chunks.len(),
{
    let m = blocks_of(chunks);
    if chunks.len() > 0 {
        let front = chunks.drop_last();
        let last = chunks.last();
        lemma_all_shown(front);
        assert(m.drop_last() =~= blocks_of(front));
        lemma_code_shown(last);
        assert(last.push('\n').drop_last() =~= last);
        lemma_without_feeds_concat(all_in_one(front), last);
    } else {
        assert(all_in_one(chunks) =~= seq![]);
    }
}

/// What the messages show, one after the other in the order in which they are sent, is the lines of
/// the screen in their order, but for line feeds. Each message is a block of code that shows 3800
/// bytes at most. Of a screen that is blank, it is said that it is empty, in one message.
pub proof fn messages_show_the_screen(raw: Seq<char>)
    ensures
        ({
            let s = without_tail(raw);
            let m = screen_said(raw);
            if exists|i: int| 0 <= i < s.len() && !text::is_white_space(#[trigger] s[i]) {
                &&& all_shown(m) == all_in_one(text::lines(s))
                &&& forall|k: int|
                    0 <= k < m.len() ==> {
                        &&& (#[trigger] m[k]).1
                        &&& m[k].0.take(4) == seq!['`', '`', '`', '\n']
                        &&& 1 < code_shown(m[k].0).len()
                        &&& text::utf8_len(code_shown(m[k].0)) <= 3800 + 1
                    }
            } else {
                m == seq![("(empty)"@, false)]
            }
        }),
{
    let s = without_tail(raw);
    text::blank_is_all_space(s);
    if exists|i: int| 0 <= i < s.len() && !text::is_white_space(#[trigger] s[i]) {
        let max = CHUNK_MAX as nat;
        let chunks = chunks_of(s, max);
        let m = screen_said(raw);
        any_text_can_be_cut(s, max);
        chunks_lose_nothing(s, max);
        chunks_fit(s, max);
        lemma_all_shown(chunks);
        assert(m =~= blocks_of(chunks));
        assert forall|k: int| 0 <= k < m.len() implies {
            &&& (#[trigger] m[k]).1
            &&& m[k].0.take(4) == seq!['`', '`', '`', '\n']
            &&& 1 < code_shown(m[k].0).len()
            &&& text::utf8_len(code_shown(m[k].0)) <= 3800 + 1
        } by {
            lemma_code_shown(chunks[k]);
            assert(0 < chunks[k].len() && text::utf8_len(chunks[k]) <= max);
            text::widths(chunks[k], '\n');
        }
    }
}

/// A screen of 3800 bytes or less, without carriage returns and not starting with a line feed, is
/// shown as it is, in one message.
pub proof fn short_screen_is_one_message(raw: Seq<char>)
    requires
        ({
            let s = without_tail(raw);
            &&& exists|i: int| 0 <= i < s.len() && !text::is_white_space(#[trigger] s[i])
            &&& s[0] != '\n'
            &&& forall|i: int| 0 <= i < s.len() ==> #[trigger] s[i] != '\r'
            &&& text::utf8_len(s) <= 3800
        }),
    ensures
        screen_said(raw).len() == 1,
        code_shown(screen_said(raw)[0].0) == without_tail(raw).push('\n'),
{
    let s = without_tail(raw);
    text::blank_is_all_space(s);
    let tail = tail_is_cut_off(raw);
    short_text_stays_in_one(s, CHUNK_MAX as nat);
    lemma_code_shown(s);
}

/// The pieces of a long line are as long as they can be: the first character of a piece does not fit
/// into the piece before it.
pub proof fn pieces_are_full(s: Seq<char>, max: nat, k: int)
    requires
        line_fits(s, max),
        0 <= k < pieces(s, max).len() - 1,
    ensures
        pieces(s, max)[k + 1].len() > 0,
        text::utf8_len(pieces(s, max)[k]) + text::width(pieces(s, max)[k + 1][0]) > max,
    decreases s.len(),
{
    fitting_is_most(s, max as int);
    let n = fitting(s, max as int) as int;
    let rest = s.skip(n);
    let all = pieces(s, max);
    assert forall|i: int| 0 <= i < rest.len() implies text::width(#[trigger] rest[i]) <= max by {
        assert(rest[i] == s[i + n]);
    }
    lemma_pieces(s, max);
    if k > 0 {
        pieces_are_full(rest, max, k - 1);
        assert(all[k] == pieces(rest, max)[k - 1]);
        assert(all[k + 1] == pieces(rest, max)[k]);
    } else {
        let m = fitting(rest, max as int) as int;
        assert(all[0] == s.take(n));
        assert(rest.len() > 0);
        assert(all[1] == pieces(rest, max)[0]);
        assert(pieces(rest, max)[0] == rest.take(m));
        fitting_is_most(rest, max as int);
        assert(all[1][0] == s[n]);
        assert(s.take(n + 1) =~= s.take(n).push(s[n]));
        text::lemma_utf8_len_push(s.take(n), s[n]);
    }
}

/// A line that is longer than a chunk is cut into pieces, which share their chunks with no other line:
/// the chunks before it and behind it are those of the lines before it and behind it.
pub proof fn long_lines_stand_alone(
    before: Seq<Seq<char>>,
    long: Seq<char>,
    behind: Seq<Seq<char>>,
    max: nat,
)
    requires
        text::utf8_len(long) > max,
    ensures
        filled(before.push(long) + behind, max).chunks() == filled(before, max).chunks() + pieces(
            long,
            max,
        ) + filled(behind, max).chunks(),
{
    lemma_filled_behind(before, long, behind, max);
    let p = filled(before, max).chunks() + pieces(long, max);
    let f = filled(behind, max);
    if f.current.len() == 0 {
        assert(p + f.full =~= p + f.chunks());
    } else {
        assert((p + f.full).push(f.current) =~= p + f.chunks());
    }
}

proof fn lemma_filled_behind(
    before: Seq<Seq<char>>,
    long: Seq<char>,
    behind: Seq<Seq<char>>,
    max: nat,
)
    requires
        text::utf8_len(long) > max,
    ensures
        filled(before.push(long) + behind, max) == (Filling {
            full: filled(before, max).chunks() + pieces(long, max) + filled(behind, max).full,
            current: filled(behind, max).current,
        }),
    decreases behind.len(),
{
    let all = before.push(long) + behind;
    let p = filled(before, max).chunks() + pieces(long, max);
    if behind.len() == 0 {
        assert(all =~= before.push(long));
        assert(all.drop_last() =~= before);
        assert(p + filled(behind, max).full =~= p);
    } else {
        let front = behind.drop_last();
        lemma_filled_behind(before, long, front, max);
        assert(all.drop_last() =~= before.push(long) + front);
        assert(all.last() == behind.last());
        let g = filled(front, max);
        let line = behind.last();
        assert((p + g.full).push(g.current) =~= p + g.full.push(g.current));
        assert(p + g.chunks() + pieces(line, max) =~= p + (g.chunks() + pieces(line, max)));
    }
}

/// The hash of a text is that of the whole text: it is what the hasher makes of all that is written
/// when the text is hashed.
pub proof fn hash_is_of_the_whole_text(s: Seq<char>)
    ensures
        text_hash(s) == DefaultHasher::spec_finish(hash_writes(s)),
{
}

} // verus!
