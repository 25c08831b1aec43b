//! Plain-text building blocks: splitting on a separator, and the model of how
//! a file's content reads back as lines.

use vstd::prelude::*;

verus! {

/// The views of a sequence of strings.
pub open spec fn texts(v: Seq<String>) -> Seq<Seq<char>> {
    v.map_values(|s: String| s@)
}

/// The pieces of `s` between occurrences of `sep`, as `str::split` yields
/// them: there is always at least one piece, and `k` separators give `k + 1`
/// pieces, some of which may be empty.
pub open spec fn split_on(s: Seq<char>, sep: char) -> Seq<Seq<char>>
    decreases s.len(),
{
    if s.len() == 0 {
        seq![Seq::empty()]
    } else {
        let p = split_on(s.drop_last(), sep);
        if s.last() == sep {
            p.push(Seq::empty())
        } else {
            p.update(p.len() - 1, p.last().push(s.last()))
        }
    }
}

/// The comma-separated fields of one line.
pub open spec fn fields_of(line: Seq<char>) -> Seq<Seq<char>> {
    split_on(line, ',')
}

/// A line without the carriage return that a CRLF ending leaves behind.
pub open spec fn strip_cr(l: Seq<char>) -> Seq<char> {
    if l.len() > 0 && l.last() == '\r' {
        l.drop_last()
    } else {
        l
    }
}

/// The lines of a file's content, as a line-by-line reader yields them:
/// split at each `'\n'`; a piece that a newline ends loses a `'\r'` before
/// it; a final piece that no newline ends is a line only where it is not
/// empty, and keeps what it holds.
pub open spec fn lines_of(content: Seq<char>) -> Seq<Seq<char>> {
    let p = split_on(content, '\n');
    let ended = p.drop_last().map_values(|l: Seq<char>| strip_cr(l));
    if p.last().len() == 0 {
        ended
    } else {
        ended.push(p.last())
    }
}

/// `split_on` never yields an empty sequence of pieces.
pub proof fn lemma_split_on_nonempty(s: Seq<char>, sep: char)
    ensures
        split_on(s, sep).len() >= 1,
    decreases s.len(),
{
    if s.len() > 0 {
        lemma_split_on_nonempty(s.drop_last(), sep);
    }
}

/// Splits `line` at every comma.
pub fn split_fields(line: &str) -> (r: Vec<String>)
    ensures
        texts(r@) == fields_of(line@),
{
    let n = line.unicode_len();
    let mut fields: Vec<String> = Vec::new();
    let mut start: usize = 0;
    let mut i: usize = 0;
    proof {
        assert(texts(fields@) == Seq::<Seq<char>>::empty());
        assert(line@.subrange(0, 0) == Seq::<char>::empty());
        assert(texts(fields@).push(Seq::<char>::empty()) == seq![Seq::<char>::empty()]);
    }
    while i < n
        invariant
            n == line@.len(),
            start <= i <= n,
            texts(fields@).push(line@.subrange(start as int, i as int)) == split_on(
                line@.subrange(0, i as int),
                ',',
            ),
        decreases n - i,
    {
        let c = line.get_char(i);
        proof {
            assert(line@.subrange(0, i + 1).drop_last() == line@.subrange(0, i as int));
            lemma_split_on_nonempty(line@.subrange(0, i as int), ',');
        }
        if c == ',' {
            let piece = line.substring_char(start, i).to_owned();
            fields.push(piece);
            start = i + 1;
            proof {
                assert(texts(fields@) == texts(fields@).drop_last().push(piece@));
                assert(line@.subrange(start as int, i + 1) == Seq::<char>::empty());
            }
        } else {
            proof {
                assert(line@.subrange(start as int, i + 1) == line@.subrange(
                    start as int,
                    i as int,
                ).push(c));
            }
        }
        i = i + 1;
    }
    let last = line.substring_char(start, n).to_owned();
    fields.push(last);
    proof {
        assert(line@.subrange(0, n as int) == line@);
        assert(texts(fields@) == texts(fields@).drop_last().push(last@));
    }
    fields
}

} // verus!
