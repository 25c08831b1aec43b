//! What holds of a log across runs: appending keeps what was there, a run
//! that repeats the last observation adds nothing, malformed lines are passed
//! over, and a new log gets exactly one row.

use vstd::prelude::*;
use crate::text::{fields_of, lines_of, split_on, strip_cr, lemma_split_on_nonempty};
use crate::record::{csv_field, csv_record, is_new, join_commas, last_known_of, plain};

verus! {

/// The line that a row of three plain fields reads back as.
pub open spec fn row_line(date: Seq<char>, hostname: Seq<char>, ip: Seq<char>) -> Seq<char> {
    date + seq![','] + hostname + seq![','] + ip
}

/// Content that ends where a line ends: empty, or with a newline.
pub open spec fn ends_at_line_end(content: Seq<char>) -> bool {
    content.len() == 0 || content.last() == '\n'
}

proof fn lemma_split_on_without_sep(s: Seq<char>, sep: char)
    requires
        !s.contains(sep),
    ensures
        split_on(s, sep) == seq![s],
    decreases s.len(),
{
    if s.len() > 0 {
        let d = s.drop_last();
        assert(!d.contains(sep)) by {
            if d.contains(sep) {
                let i = choose|i: int| 0 <= i < d.len() && d[i] == sep;
                assert(s[i] == sep);
            }
        }
        lemma_split_on_without_sep(d, sep);
        assert(s.last() != sep) by {
            assert(s[s.len() - 1] == s.last());
        }
        assert(d.push(s.last()) == s);
        assert(split_on(s, sep) == seq![d].update(0, d.push(s.last())));
        assert(seq![d].update(0, d.push(s.last())) == seq![s]);
    } else {
        assert(s == Seq::<char>::empty());
    }
}

proof fn lemma_split_on_ends_empty(a: Seq<char>, sep: char)
    requires
        a.len() == 0 || a.last() == sep,
    ensures
        split_on(a, sep).last() == Seq::<char>::empty(),
{
}

proof fn lemma_split_on_append(a: Seq<char>, b: Seq<char>, sep: char)
    requires
        a.len() == 0 || a.last() == sep,
    ensures
        split_on(a + b, sep) == split_on(a, sep).drop_last() + split_on(b, sep),
    decreases b.len(),
{
    let x = split_on(a, sep).drop_last();
    lemma_split_on_nonempty(a, sep);
    lemma_split_on_ends_empty(a, sep);
    if b.len() == 0 {
        assert(a + b == a);
        assert(split_on(a, sep) == x.push(Seq::<char>::empty()));
        assert(x + split_on(b, sep) == x.push(Seq::<char>::empty()));
    } else {
        let b1 = b.drop_last();
        lemma_split_on_append(a, b1, sep);
        lemma_split_on_nonempty(b1, sep);
        assert((a + b).drop_last() == a + b1);
        assert((a + b).last() == b.last());
        let p = split_on(b1, sep);
        if b.last() == sep {
            assert((x + p).push(Seq::<char>::empty()) == x + p.push(Seq::<char>::empty()));
        } else {
            let c = b.last();
            assert((x + p).update((x + p).len() - 1, (x + p).last().push(c)) == x + p.update(
                p.len() - 1,
                p.last().push(c),
            ));
        }
    }
}

proof fn lemma_lines_of_append(a: Seq<char>, b: Seq<char>)
    requires
        ends_at_line_end(a),
    ensures
        lines_of(a + b) == lines_of(a) + lines_of(b),
{
    lemma_split_on_append(a, b, '\n');
    lemma_split_on_nonempty(a, '\n');
    lemma_split_on_nonempty(b, '\n');
    lemma_split_on_ends_empty(a, '\n');
    let x = split_on(a, '\n').drop_last();
    let pb = split_on(b, '\n');
    let f = |l: Seq<char>| strip_cr(l);
    assert((x + pb).last() == pb.last());
    assert((x + pb).drop_last() == x + pb.drop_last());
    assert((x + pb.drop_last()).map_values(f) == x.map_values(f) + pb.drop_last().map_values(f));
    assert(lines_of(a) == x.map_values(f));
    if pb.last().len() != 0 {
        assert(x.map_values(f) + pb.drop_last().map_values(f).push(pb.last()) == (x.map_values(f)
            + pb.drop_last().map_values(f)).push(pb.last()));
    }
}

proof fn lemma_plain_record(date: Seq<char>, hostname: Seq<char>, ip: Seq<char>)
    requires
        plain(date),
        plain(hostname),
        plain(ip),
    ensures
        csv_record(seq![date, hostname, ip]) == row_line(date, hostname, ip) + seq!['\n'],
{
    let fs = seq![date, hostname, ip];
    let g = fs.map_values(|f: Seq<char>| csv_field(f));
    assert(g =~= fs);
    assert(fs.drop_last() =~= seq![date, hostname]);
    assert(seq![date, hostname].drop_last() =~= seq![date]);
    assert(join_commas(seq![date]) == date);
    assert(join_commas(seq![date, hostname]) == date + seq![','] + hostname);
    let body = join_commas(fs);
    assert(body == row_line(date, hostname, ip));
    assert(body[date.len() as int] == ',');
}

proof fn lemma_fields_of_row_line(date: Seq<char>, hostname: Seq<char>, ip: Seq<char>)
    requires
        plain(date),
        plain(hostname),
        plain(ip),
    ensures
        fields_of(row_line(date, hostname, ip)) == seq![date, hostname, ip],
{
    let a = date + seq![','];
    let b = hostname + seq![','];
    assert(row_line(date, hostname, ip) == a + (b + ip));
    lemma_split_on_append(a, b + ip, ',');
    lemma_split_on_append(b, ip, ',');
    lemma_split_on_without_sep(date, ',');
    lemma_split_on_without_sep(hostname, ',');
    lemma_split_on_without_sep(ip, ',');
    assert(a.drop_last() == date);
    assert(b.drop_last() == hostname);
    assert(split_on(a, ',') == seq![date].push(Seq::<char>::empty()));
    assert(split_on(b, ',') == seq![hostname].push(Seq::<char>::empty()));
    assert(seq![date] + (seq![hostname] + seq![ip]) == seq![date, hostname, ip]);
}

proof fn lemma_lines_of_row(date: Seq<char>, hostname: Seq<char>, ip: Seq<char>)
    requires
        plain(date),
        plain(hostname),
        plain(ip),
    ensures
        lines_of(row_line(date, hostname, ip) + seq!['\n']) == seq![row_line(date, hostname, ip)],
{
    let line = row_line(date, hostname, ip);
    let row = line + seq!['\n'];
    assert(!line.contains('\n')) by {
        if line.contains('\n') {
            let i = choose|i: int| 0 <= i < line.len() && line[i] == '\n';
            if i < date.len() {
                assert(date[i] == '\n');
            } else if i == date.len() {
            } else if i < date.len() + 1 + hostname.len() {
                assert(hostname[i - date.len() - 1] == '\n');
            } else if i == date.len() + 1 + hostname.len() {
            } else {
                assert(ip[i - date.len() - 2 - hostname.len()] == '\n');
            }
        }
    }
    lemma_split_on_without_sep(line, '\n');
    assert(row.drop_last() == line);
    assert(split_on(row, '\n') == seq![line, Seq::<char>::empty()]);
    assert(seq![line, Seq::<char>::empty()].drop_last() == seq![line]);
    assert(seq![line].map_values(|l: Seq<char>| strip_cr(l)) == seq![strip_cr(line)]);
    assert(strip_cr(line) == line) by {
        if ip.len() > 0 {
            assert(line.last() == ip.last());
            assert(ip[ip.len() - 1] == ip.last());
        } else {
            assert(line.last() == ',');
        }
    }
}

/// Appending to a log whose content ends at a line end keeps every line it
/// had, in its place: the old lines are a prefix of the new ones.
pub proof fn lemma_append_keeps_lines(content: Seq<char>, row: Seq<char>)
    requires
        ends_at_line_end(content),
    ensures
        lines_of(content).len() <= lines_of(content + row).len(),
        lines_of(content + row).subrange(0, lines_of(content).len() as int) == lines_of(content),
{
    lemma_lines_of_append(content, row);
    assert((lines_of(content) + lines_of(row)).subrange(0, lines_of(content).len() as int)
        == lines_of(content));
}

/// After a row for `(hostname, ip)` has been appended to a log whose content
/// ends at a line end, the log has exactly one line more, and that line is
/// the last known observation: a second run that sees the same pair appends
/// nothing.
pub proof fn lemma_second_run_appends_nothing(
    content: Seq<char>,
    date: Seq<char>,
    hostname: Seq<char>,
    ip: Seq<char>,
)
    requires
        ends_at_line_end(content),
        plain(date),
        plain(hostname),
        plain(ip),
    ensures
        lines_of(content + csv_record(seq![date, hostname, ip])) == lines_of(content).push(
            row_line(date, hostname, ip),
        ),
        last_known_of(lines_of(content + csv_record(seq![date, hostname, ip]))) == (hostname, ip),
        !is_new(last_known_of(lines_of(content + csv_record(seq![date, hostname, ip]))), hostname, ip),
{
    lemma_plain_record(date, hostname, ip);
    lemma_lines_of_row(date, hostname, ip);
    lemma_lines_of_append(content, csv_record(seq![date, hostname, ip]));
    lemma_fields_of_row_line(date, hostname, ip);
    assert(lines_of(content) + seq![row_line(date, hostname, ip)] == lines_of(content).push(
        row_line(date, hostname, ip),
    ));
    assert(lines_of(content).push(row_line(date, hostname, ip)).drop_last() == lines_of(content));
}

/// Lines without exactly three fields after the last known observation
/// change nothing: the last line with three fields decides.
pub proof fn lemma_malformed_lines_ignored(lines: Seq<Seq<char>>, tail: Seq<Seq<char>>)
    requires
        forall|i: int| 0 <= i < tail.len() ==> fields_of(#[trigger] tail[i]).len() != 3,
    ensures
        last_known_of(lines + tail) == last_known_of(lines),
    decreases tail.len(),
{
    if tail.len() > 0 {
        let t1 = tail.drop_last();
        assert((lines + tail).drop_last() == lines + t1);
        assert((lines + tail).last() == tail[tail.len() - 1]);
        lemma_malformed_lines_ignored(lines, t1);
    } else {
        assert(lines + tail == lines);
    }
}

/// A line with exactly three fields becomes the last known observation,
/// whatever came before it.
pub proof fn lemma_three_fields_decide(lines: Seq<Seq<char>>, line: Seq<char>)
    requires
        fields_of(line).len() == 3,
    ensures
        last_known_of(lines.push(line)) == (fields_of(line)[1], fields_of(line)[2]),
{
    assert(lines.push(line).last() == line);
}

/// A new, empty log has two empty strings as its last known observation, so
/// any observation with a hostname or an address is due; once its row is
/// written the log holds exactly that one line.
pub proof fn lemma_new_log_gets_one_row(date: Seq<char>, hostname: Seq<char>, ip: Seq<char>)
    requires
        plain(date),
        plain(hostname),
        plain(ip),
    ensures
        lines_of(Seq::empty()) == Seq::<Seq<char>>::empty(),
        is_new(last_known_of(lines_of(Seq::empty())), hostname, ip) <==> (hostname.len() > 0
            || ip.len() > 0),
        lines_of(csv_record(seq![date, hostname, ip])) == seq![row_line(date, hostname, ip)],
{
    lemma_plain_record(date, hostname, ip);
    lemma_lines_of_row(date, hostname, ip);
    assert(lines_of(Seq::empty()) == Seq::<Seq<char>>::empty());
    assert(last_known_of(Seq::<Seq<char>>::empty()) == (Seq::<char>::empty(), Seq::<char>::empty()));
    if hostname.len() == 0 {
        assert(hostname == Seq::<char>::empty());
    }
    if ip.len() == 0 {
        assert(ip == Seq::<char>::empty());
    }
}

} // verus!
