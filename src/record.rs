//! Log rows: how a row is encoded, which row of a file is the last known
//! observation, and when a new row is due.

use vstd::prelude::*;
use crate::text::{fields_of, split_fields, texts};

verus! {

/// Whether the CSV writer must put `f` in quotes: it holds a delimiter, a
/// quote or a line break.
pub open spec fn needs_quotes(f: Seq<char>) -> bool {
    f.contains(',') || f.contains('"') || f.contains('\r') || f.contains('\n')
}

/// `f` with every quote doubled.
pub open spec fn double_quotes(f: Seq<char>) -> Seq<char>
    decreases f.len(),
{
    if f.len() == 0 {
        Seq::empty()
    } else {
        double_quotes(f.drop_last()) + if f.last() == '"' {
            seq!['"', '"']
        } else {
            seq![f.last()]
        }
    }
}

/// One field as the CSV writer puts it down.
pub open spec fn csv_field(f: Seq<char>) -> Seq<char> {
    if needs_quotes(f) {
        seq!['"'] + double_quotes(f) + seq!['"']
    } else {
        f
    }
}

/// The pieces joined with a comma between each two.
pub open spec fn join_commas(fs: Seq<Seq<char>>) -> Seq<char>
    decreases fs.len(),
{
    if fs.len() == 0 {
        Seq::empty()
    } else if fs.len() == 1 {
        fs[0]
    } else {
        join_commas(fs.drop_last()) + seq![','] + fs.last()
    }
}

/// One record as the CSV writer puts it down with its default settings:
/// each field as `csv_field` gives it, commas between them, then `'\n'`.
/// A record that would otherwise be empty is written as `""`.
pub open spec fn csv_record(fs: Seq<Seq<char>>) -> Seq<char> {
    let body = join_commas(fs.map_values(|f: Seq<char>| csv_field(f)));
    (if body.len() == 0 {
        seq!['"', '"']
    } else {
        body
    }) + seq!['\n']
}

/// Relies on `csv::Writer` with its default settings (`from_writer`,
/// `write_record`, `into_inner`) writing into memory: a first record is
/// always accepted, writing into a `Vec` cannot fail, and what it produces
/// for one record is `csv_record` of the fields, which is UTF-8.
#[verifier::external_body]
fn csv_encode(fields: &Vec<String>) -> (r: Option<String>)
    ensures
        r is Some,
        r matches Some(s) ==> s@ == csv_record(texts(fields@)),
{
    let mut w = csv::Writer::from_writer(Vec::new());
    w.write_record(fields).ok()?;
    let bytes = w.into_inner().ok()?;
    String::from_utf8(bytes).ok()
}

/// A field that the CSV writer puts down as it is and that a reader splits
/// back out unchanged: no comma, quote or line break.
pub open spec fn plain(f: Seq<char>) -> bool {
    !needs_quotes(f)
}

/// What can go wrong in deciding on a row.
#[derive(Debug, PartialEq, Eq, Structural)]
pub enum LogError {
    /// The CSV writer did not produce a row.
    Encoding,
}

/// The hostname and IP address of one observation.
pub struct Observation {
    pub hostname: String,
    pub ip: String,
}

impl View for Observation {
    type V = (Seq<char>, Seq<char>);

    open spec fn view(&self) -> (Seq<char>, Seq<char>) {
        (self.hostname@, self.ip@)
    }
}

/// The last known observation of a log: the hostname and IP address of its
/// last line with exactly three fields, or two empty strings where no line
/// has three.
pub open spec fn last_known_of(lines: Seq<Seq<char>>) -> (Seq<char>, Seq<char>)
    decreases lines.len(),
{
    if lines.len() == 0 {
        (Seq::empty(), Seq::empty())
    } else if fields_of(lines.last()).len() == 3 {
        (fields_of(lines.last())[1], fields_of(lines.last())[2])
    } else {
        last_known_of(lines.drop_last())
    }
}

/// Whether `(hostname, ip)` differs from the last known observation.
pub open spec fn is_new(last: (Seq<char>, Seq<char>), hostname: Seq<char>, ip: Seq<char>) -> bool {
    last.0 != hostname || last.1 != ip
}

/// Scans the log's lines from the first to the last and keeps the hostname
/// and IP address of the last line with exactly three fields.
pub fn last_known(lines: &Vec<String>) -> (r: Observation)
    ensures
        r@ == last_known_of(texts(lines@)),
{
    let mut hostname = String::new();
    let mut ip = String::new();
    let mut i: usize = 0;
    proof {
        assert(texts(lines@.subrange(0, 0)) == Seq::<Seq<char>>::empty());
    }
    while i < lines.len()
        invariant
            i <= lines.len(),
            (hostname@, ip@) == last_known_of(texts(lines@.subrange(0, i as int))),
        decreases lines.len() - i,
    {
        let fields = split_fields(lines[i].as_str());
        proof {
            assert(texts(lines@.subrange(0, i + 1)).drop_last() == texts(
                lines@.subrange(0, i as int),
            ));
        }
        if fields.len() == 3 {
            hostname = fields[1].clone();
            ip = fields[2].clone();
        }
        i = i + 1;
    }
    proof {
        assert(lines@.subrange(0, lines.len() as int) == lines@);
    }
    Observation { hostname, ip }
}

/// Whether `(hostname, ip)` differs from `last`.
pub fn has_changed(last: &Observation, hostname: &String, ip: &String) -> (r: bool)
    ensures
        r == is_new(last@, hostname@, ip@),
{
    !(last.hostname == *hostname) || !(last.ip == *ip)
}

/// Encodes the row `date,hostname,ip` with its line ending.
pub fn encode_row(date: &String, hostname: &String, ip: &String) -> (r: Result<String, LogError>)
    ensures
        r is Ok,
        r matches Ok(row) ==> row@ == csv_record(seq![date@, hostname@, ip@]),
{
    let fields = vec![date.clone(), hostname.clone(), ip.clone()];
    proof {
        assert(texts(fields@) == seq![date@, hostname@, ip@]);
    }
    match csv_encode(&fields) {
        Some(row) => Ok(row),
        None => Err(LogError::Encoding),
    }
}

/// Decides, for a log whose lines are `lines`, whether the observation
/// `(hostname, ip)` made at `date` is to be appended, and gives the row to
/// append: `None` where it equals the last known observation.
pub fn plan_append(lines: &Vec<String>, date: &String, hostname: &String, ip: &String) -> (r:
    Result<Option<String>, LogError>)
    ensures
        ({
            let due = is_new(last_known_of(texts(lines@)), hostname@, ip@);
            match r {
                Ok(None) => !due,
                Ok(Some(row)) => due && row@ == csv_record(seq![date@, hostname@, ip@]),
                Err(_) => false,
            }
        }),
{
    let last = last_known(lines);
    if !has_changed(&last, hostname, ip) {
        return Ok(None);
    }
    match encode_row(date, hostname, ip) {
        Ok(row) => Ok(Some(row)),
        Err(e) => Err(e),
    }
}

} // verus!
