//! The device inventory: where the query tool is looked for, how it is
//! asked, and how its answers are read.

use crate::device_set::DeviceSet;
use crate::failure::Failure;
use crate::text::{lemma_joined_pieces, pieces, split, trim_end, trimmed};
use vstd::prelude::*;
use vstd::string::*;
use vstd::utf8::*;

verus! {

/// The name of the query tool.
pub const TOOL: &'static str = "nvidia-smi";

/// The argument that asks for the identifier of every installed device.
pub const LIST_TOTAL: &'static str = "--query-gpu=uuid";

/// The argument that asks for the identifier of the device of every
/// running compute workload.
pub const LIST_USED: &'static str = "--query-compute-apps=gpu_uuid";

/// The argument that asks for one value per line and no header.
pub const PLAIN_LINES: &'static str = "--format=csv,noheader";

/// The character between the entries of the search path.
pub const PATH_SEPARATOR: char = ':';

/// The two questions put to the query tool.
#[derive(Clone, Copy, Debug, PartialEq, Eq, Structural)]
pub enum QueryMode {
    /// Which devices are installed.
    Total,
    /// Which devices host a compute workload.
    Used,
}

/// What came of running the query tool.
#[derive(Debug)]
pub enum QueryOutcome {
    /// The tool could not be run to completion.
    Failed,
    /// The tool ran; these bytes are what it wrote to its standard output.
    Completed(Vec<u8>),
}

impl View for QueryOutcome {
    type V = Option<Seq<u8>>;

    open spec fn view(&self) -> Option<Seq<u8>> {
        match *self {
            QueryOutcome::Failed => None,
            QueryOutcome::Completed(bytes) => Some(bytes@),
        }
    }
}

/// `core::str::Utf8Error`, what `core::str::from_utf8` fails with. Nothing
/// is read from it.
#[verifier::external_type_specification]
#[verifier::external_body]
pub struct ExUtf8Error(core::str::Utf8Error);

/// `core::str::from_utf8` succeeds exactly on byte strings that are valid
/// UTF-8, and the string slice it then returns has the given bytes as its
/// encoding.
pub assume_specification<'a>[ core::str::from_utf8 ](v: &'a [u8]) -> (r: Result<
    &'a str,
    core::str::Utf8Error,
>)
    ensures
        r is Ok <==> valid_utf8(v@),
        r matches Ok(s) ==> s.spec_bytes() == v@,
;

/// The first argument to pass to the query tool for `mode`; the second is
/// always `PLAIN_LINES`.
pub fn selector_argument(mode: QueryMode) -> (arg: &'static str)
    ensures
        arg@ == (match mode {
            QueryMode::Total => LIST_TOTAL@,
            QueryMode::Used => LIST_USED@,
        }),
{
    match mode {
        QueryMode::Total => LIST_TOTAL,
        QueryMode::Used => LIST_USED,
    }
}

/// The file to look for in directory `dir` of the search path.
pub open spec fn candidate(dir: Seq<char>, tool: Seq<char>) -> Seq<char> {
    dir.push('/') + tool
}

/// The files to look for, in the order of the search path: one for each of
/// its entries, empty entries included.
pub open spec fn candidates(path: Seq<char>, tool: Seq<char>) -> Seq<Seq<char>> {
    pieces(path, PATH_SEPARATOR).map_values(|dir: Seq<char>| candidate(dir, tool))
}

/// Lists the files whose existence would show that `tool` is on the search
/// path `path`.
pub fn search_candidates(path: &str, tool: &str) -> (files: Vec<String>)
    ensures
        files.deep_view() == candidates(path@, tool@),
        files.len() >= 1,
{
    let dirs = split(path, PATH_SEPARATOR);
    let mut files: Vec<String> = Vec::new();
    let mut i: usize = 0;
    while i < dirs.len()
        invariant
            i <= dirs.len(),
            dirs.deep_view() == pieces(path@, PATH_SEPARATOR),
            files.deep_view() == candidates(path@, tool@).take(i as int),
        decreases dirs.len() - i,
    {
        let mut file = dirs[i].clone();
        file.push('/');
        file.append(tool);
        proof {
            assert(file@ == candidates(path@, tool@)[i as int]);
            assert(files.deep_view().push(file@) == candidates(path@, tool@).take(i + 1));
        }
        let ghost before = files.deep_view();
        files.push(file);
        assert(files.deep_view() == before.push(file@));
        i += 1;
    }
    proof {
        lemma_joined_pieces(path@, PATH_SEPARATOR);
        assert(candidates(path@, tool@).take(dirs.len() as int) == candidates(path@, tool@));
    }
    files
}

/// The identifiers in the text of an answer of the query tool: each line,
/// without the blank characters at its end, is one identifier, unless
/// nothing is left of it.
pub open spec fn identifiers(text: Seq<char>) -> Set<Seq<char>> {
    Set::new(
        |id: Seq<char>|
            id.len() > 0 && exists|i: int|
                0 <= i < pieces(text, '\n').len() && trimmed(#[trigger] pieces(text, '\n')[i])
                    == id,
    )
}

/// The identifiers among the first `n` lines of `text`.
spec fn identifiers_upto(text: Seq<char>, n: int) -> Set<Seq<char>> {
    Set::new(
        |id: Seq<char>|
            id.len() > 0 && exists|i: int|
                0 <= i < n && i < pieces(text, '\n').len() && trimmed(
                    #[trigger] pieces(text, '\n')[i],
                ) == id,
    )
}

/// Reads the identifiers from the text of an answer of the query tool.
pub fn parse_text(text: &str) -> (set: DeviceSet)
    ensures
        set@ == identifiers(text@),
{
    let lines = split(text, '\n');
    let mut set = DeviceSet::new();
    assert(set@ =~= identifiers_upto(text@, 0));
    let mut i: usize = 0;
    while i < lines.len()
        invariant
            i <= lines.len(),
            lines.deep_view() == pieces(text@, '\n'),
            set@ == identifiers_upto(text@, i as int),
        decreases lines.len() - i,
    {
        let id = trim_end(lines[i].as_str());
        let ghost line = pieces(text@, '\n')[i as int];
        assert(id@ == trimmed(line));
        if !id.as_str().is_empty() {
            assert(identifiers_upto(text@, i + 1) =~= identifiers_upto(text@, i as int).insert(
                id@,
            ));
            set.insert(id);
        } else {
            assert(identifiers_upto(text@, i + 1) =~= identifiers_upto(text@, i as int));
        }
        i += 1;
    }
    assert(identifiers_upto(text@, lines.len() as int) =~= identifiers(text@));
    set
}

/// What is read from a run of the query tool: the identifiers in what it
/// wrote, `QueryExecutionError` if it did not run, and
/// `QueryOutputDecodeError` if it wrote bytes that are not valid UTF-8.
pub open spec fn reading(output: Option<Seq<u8>>) -> Result<Set<Seq<char>>, Failure> {
    match output {
        None => Err(Failure::QueryExecutionError),
        Some(bytes) => if valid_utf8(bytes) {
            Ok(identifiers(decode_utf8(bytes)))
        } else {
            Err(Failure::QueryOutputDecodeError)
        },
    }
}

/// Reads the identifiers from what a run of the query tool gave.
pub fn parse_output(outcome: &QueryOutcome) -> (r: Result<DeviceSet, Failure>)
    ensures
        match r {
            Ok(set) => reading(outcome@) == Ok::<Set<Seq<char>>, Failure>(set@),
            Err(e) => reading(outcome@) == Err::<Set<Seq<char>>, Failure>(e),
        },
{
    match outcome {
        QueryOutcome::Failed => Err(Failure::QueryExecutionError),
        QueryOutcome::Completed(bytes) => match core::str::from_utf8(bytes.as_slice()) {
            Ok(text) => {
                proof {
                    encode_utf8_decode_utf8(text@);
                }
                Ok(parse_text(text))
            },
            Err(_) => Err(Failure::QueryOutputDecodeError),
        },
    }
}

} // verus!
