//! Splitting, trimming and joining of text.

use vstd::prelude::*;
use vstd::string::*;

verus! {

/// `String::push` appends one character to the end of the string and
/// changes nothing else.
pub assume_specification[ String::push ](s: &mut String, ch: char)
    ensures
        final(s)@ == old(s)@.push(ch),
;

/// The pieces of `text` between occurrences of `sep`. There is always at
/// least one piece; a separator at either end leaves an empty piece there.
pub open spec fn pieces(text: Seq<char>, sep: char) -> Seq<Seq<char>>
    decreases text.len(),
{
    if text.len() == 0 {
        seq![Seq::<char>::empty()]
    } else {
        let before = pieces(text.drop_last(), sep);
        if text.last() == sep {
            before.push(Seq::<char>::empty())
        } else {
            before.drop_last().push(before.last().push(text.last()))
        }
    }
}

/// The parts written one after another with `sep` between neighbours.
pub open spec fn joined(parts: Seq<Seq<char>>, sep: char) -> Seq<char>
    decreases parts.len(),
{
    if parts.len() == 0 {
        Seq::<char>::empty()
    } else if parts.len() == 1 {
        parts[0]
    } else {
        joined(parts.drop_last(), sep).push(sep) + parts.last()
    }
}

/// Blank characters: space, tab, line feed, form feed and carriage return.
pub open spec fn blank(c: char) -> bool {
    c == ' ' || c == '\t' || c == '\n' || c == '\x0C' || c == '\r'
}

/// `line` without the blank characters at its end.
pub open spec fn trimmed(line: Seq<char>) -> Seq<char>
    decreases line.len(),
{
    if line.len() > 0 && blank(line.last()) {
        trimmed(line.drop_last())
    } else {
        line
    }
}

/// Splits `text` at every occurrence of `sep`.
pub fn split(text: &str, sep: char) -> (parts: Vec<String>)
    ensures
        parts.deep_view() == pieces(text@, sep),
{
    let mut parts: Vec<String> = Vec::new();
    let mut piece = String::new();
    for c in it: text.chars()
        invariant
            it.seq() == text@,
            parts.deep_view().push(piece@) == pieces(text@.take(it.index()), sep),
    {
        let ghost before = parts.deep_view().push(piece@);
        proof {
            let next = text@.take(it.index() + 1);
            assert(next.drop_last() == text@.take(it.index()));
            assert(next.last() == c);
        }
        if c == sep {
            parts.push(piece);
            piece = String::new();
            assert(parts.deep_view() == before);
        } else {
            piece.push(c);
            assert(parts.deep_view().push(piece@) == before.drop_last().push(
                before.last().push(c),
            ));
        }
    }
    assert(text@.take(text@.len() as int) == text@);
    let ghost before = parts.deep_view().push(piece@);
    parts.push(piece);
    assert(parts.deep_view() == before);
    parts
}

/// Writes the parts one after another with `sep` between neighbours.
pub fn join(parts: &Vec<String>, sep: char) -> (text: String)
    ensures
        text@ == joined(parts.deep_view(), sep),
{
    let mut text = String::new();
    let mut i: usize = 0;
    while i < parts.len()
        invariant
            i <= parts.len(),
            text@ == joined(parts.deep_view().take(i as int), sep),
        decreases parts.len() - i,
    {
        proof {
            let next = parts.deep_view().take(i + 1);
            assert(next.drop_last() == parts.deep_view().take(i as int));
            assert(next.last() == parts[i as int]@);
        }
        if i > 0 {
            text.push(sep);
        }
        text.append(parts[i].as_str());
        i += 1;
    }
    assert(parts.deep_view().take(parts.len() as int) == parts.deep_view());
    text
}

/// Decides whether `c` is a blank character.
pub fn is_blank(c: char) -> (r: bool)
    ensures
        r == blank(c),
{
    c == ' ' || c == '\t' || c == '\n' || c == '\x0C' || c == '\r'
}

/// Copies `line` without the blank characters at its end.
pub fn trim_end(line: &str) -> (kept: String)
    ensures
        kept@ == trimmed(line@),
{
    let mut kept = String::new();
    let mut gap = String::new();
    for c in it: line.chars()
        invariant
            it.seq() == line@,
            kept@ + gap@ == line@.take(it.index()),
            forall|j: int| 0 <= j < gap@.len() ==> blank(#[trigger] gap@[j]),
            kept@.len() > 0 ==> !blank(kept@.last()),
    {
        proof {
            let next = line@.take(it.index() + 1);
            assert(next == line@.take(it.index()).push(c));
        }
        if is_blank(c) {
            gap.push(c);
        } else {
            kept.append(gap.as_str());
            kept.push(c);
            gap = String::new();
        }
    }
    proof {
        assert(line@.take(line@.len() as int) == line@);
        lemma_trimmed_drops_blank_tail(kept@, gap@);
    }
    kept
}

/// Splitting loses nothing: no piece holds the separator, and the pieces
/// joined by the separator are the text again.
pub proof fn lemma_joined_pieces(text: Seq<char>, sep: char)
    ensures
        pieces(text, sep).len() >= 1,
        forall|i: int, j: int|
            0 <= i < pieces(text, sep).len() && 0 <= j < pieces(text, sep)[i].len() ==> pieces(
                text,
                sep,
            )[i][j] != sep,
        joined(pieces(text, sep), sep) == text,
    decreases text.len(),
{
    if text.len() > 0 {
        let before = pieces(text.drop_last(), sep);
        lemma_joined_pieces(text.drop_last(), sep);
        let c = text.last();
        assert(text == text.drop_last().push(c));
        if c == sep {
            let after = before.push(Seq::<char>::empty());
            assert(after.drop_last() == before);
            assert(joined(before, sep).push(sep) + Seq::<char>::empty() == joined(
                before,
                sep,
            ).push(sep));
        } else {
            let last = before.last().push(c);
            let after = before.drop_last().push(last);
            assert(after.drop_last() == before.drop_last());
            if before.len() > 1 {
                assert(joined(before.drop_last(), sep).push(sep) + last == (joined(
                    before.drop_last(),
                    sep,
                ).push(sep) + before.last()).push(c));
            }
            assert forall|i: int, j: int|
                0 <= i < after.len() && 0 <= j < after[i].len() implies after[i][j] != sep by {
                if i < after.len() - 1 {
                    assert(after[i] == before[i]);
                } else if j < before.last().len() {
                    assert(after[i][j] == before.last()[j]);
                }
            }
        }
    }
}

/// Trimming removes a tail of blank characters that follows a text which
/// does not itself end in a blank character.
pub proof fn lemma_trimmed_drops_blank_tail(kept: Seq<char>, tail: Seq<char>)
    requires
        forall|j: int| 0 <= j < tail.len() ==> blank(#[trigger] tail[j]),
        kept.len() > 0 ==> !blank(kept.last()),
    ensures
        trimmed(kept + tail) == kept,
    decreases tail.len(),
{
    if tail.len() == 0 {
        assert(kept + tail == kept);
    } else {
        assert((kept + tail).last() == tail.last());
        assert((kept + tail).drop_last() == kept + tail.drop_last());
        lemma_trimmed_drops_blank_tail(kept, tail.drop_last());
    }
}

} // verus!
