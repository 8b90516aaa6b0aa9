//! The lines on the standard input that say what to render, and where to.

use crate::error::RenderError;
use crate::text;
use vstd::prelude::*;

verus! {

/// The text that a JSON document consisting of one string stands for; nothing where the
/// document is anything else.
pub uninterp spec fn json_string(document: Seq<char>) -> Option<Seq<char>>;

/// Whether JSON lets `c` stand for itself inside a string.
pub open spec fn is_plain(c: char) -> bool {
    c as u32 >= 0x20 && c != '"' && c != '\\'
}

/// A JSON string that is written without escapes.
pub open spec fn is_plain_string(document: Seq<char>) -> bool {
    &&& document.len() >= 2
    &&& document[0] == '"'
    &&& document.last() == '"'
    &&& forall|i: int| 0 < i < document.len() - 1 ==> is_plain(#[trigger] document[i])
}

/// What stands between the quotes of a string that is written without escapes.
pub open spec fn plain_content(document: Seq<char>) -> Seq<char> {
    document.subrange(1, document.len() - 1)
}

/// A document that cannot be a string: it is empty, or starts with neither a quote nor JSON's
/// own white space.
pub open spec fn starts_no_string(document: Seq<char>) -> bool {
    ||| document.len() == 0
    ||| {
        &&& document[0] != '"'
        &&& document[0] != ' '
        &&& document[0] != '\n'
        &&& document[0] != '\t'
        &&& document[0] != '\r'
    }
}

/// `serde_json::from_str::<PathBuf>`, with the path as text. A path is read from a JSON string
/// and from nothing else, and holds that string's characters; what is returned depends on the
/// document alone. A string without escapes stands for what is between its quotes; a document
/// that starts with anything but a quote or JSON's own white space is no string.
#[verifier::external_body]
fn parse_json_path(document: &str) -> (r: Result<String, serde_json::Error>)
    ensures
        json_string(document@) == (match r {
            Ok(s) => Some(s@),
            Err(_) => None,
        }),
        is_plain_string(document@) ==> r is Ok && r->Ok_0@ == plain_content(document@),
        starts_no_string(document@) ==> r is Err,
{
    match serde_json::from_str::<std::path::PathBuf>(document) {
        Ok(path) => Ok(path.to_string_lossy().into_owned()),
        Err(e) => Err(e),
    }
}

/// The path that was read, or the error that the line held none.
pub fn accept_output_path(parsed: Result<String, serde_json::Error>) -> (r: Result<
    String,
    RenderError,
>)
    ensures
        match parsed {
            Ok(path) => r == Ok::<String, RenderError>(path),
            Err(e) => r == Err::<String, RenderError>(RenderError::OutputPath(e)),
        },
{
    match parsed {
        Ok(path) => Ok(path),
        Err(e) => Err(RenderError::OutputPath(e)),
    }
}

/// The path of the output file, out of a line that holds it as a JSON string. Blanks around the
/// string do not matter.
pub fn output_path(line: &str) -> (r: Result<String, RenderError>)
    ensures
        match r {
            Ok(path) => json_string(text::trimmed(line@)) == Some(path@),
            Err(e) => json_string(text::trimmed(line@)) is None && e is OutputPath,
        },
        is_plain_string(text::trimmed(line@)) ==> r is Ok && r->Ok_0@ == plain_content(
            text::trimmed(line@),
        ),
        starts_no_string(text::trimmed(line@)) ==> r is Err,
{
    accept_output_path(parse_json_path(text::trim(line)))
}

proof fn lemma_trimmed_start(blanks: Seq<char>, rest: Seq<char>)
    requires
        forall|i: int| 0 <= i < blanks.len() ==> text::is_blank(#[trigger] blanks[i]),
        rest.len() > 0 && !text::is_blank(rest[0]),
    ensures
        text::trimmed_start(blanks + rest) == rest,
    decreases blanks.len(),
{
    let s = blanks + rest;
    if blanks.len() == 0 {
        assert(s =~= rest);
    } else {
        let fewer = blanks.skip(1);
        assert(s[0] == blanks[0]);
        assert(s.skip(1) =~= fewer + rest);
        assert forall|i: int| 0 <= i < fewer.len() implies text::is_blank(#[trigger] fewer[i]) by {
            assert(fewer[i] == blanks[i + 1]);
        }
        lemma_trimmed_start(fewer, rest);
    }
}

proof fn lemma_trimmed_end(rest: Seq<char>, blanks: Seq<char>)
    requires
        forall|i: int| 0 <= i < blanks.len() ==> text::is_blank(#[trigger] blanks[i]),
        rest.len() > 0 && !text::is_blank(rest.last()),
    ensures
        text::trimmed_end(rest + blanks) == rest,
    decreases blanks.len(),
{
    let s = rest + blanks;
    if blanks.len() == 0 {
        assert(s =~= rest);
    } else {
        let fewer = blanks.drop_last();
        assert(s.last() == blanks.last());
        assert(text::is_blank(blanks[blanks.len() - 1]));
        assert(s.drop_last() =~= rest + fewer);
        assert forall|i: int| 0 <= i < fewer.len() implies text::is_blank(#[trigger] fewer[i]) by {
            assert(fewer[i] == blanks[i]);
        }
        lemma_trimmed_end(rest, fewer);
    }
}

/// A path that needs no escapes is read back as it was written: between quotes, on a line that
/// may have blanks around it.
pub proof fn lemma_plain_path_is_read_back(
    before: Seq<char>,
    path: Seq<char>,
    after: Seq<char>,
)
    requires
        forall|i: int| 0 <= i < before.len() ==> text::is_blank(#[trigger] before[i]),
        forall|i: int| 0 <= i < after.len() ==> text::is_blank(#[trigger] after[i]),
        forall|i: int| 0 <= i < path.len() ==> is_plain(#[trigger] path[i]),
    ensures
        ({
            let quoted = seq!['"'] + path + seq!['"'];
            let document = text::trimmed(before + quoted + after);
            is_plain_string(document) && plain_content(document) == path
        }),
{
    let quoted = seq!['"'] + path + seq!['"'];
    assert(quoted[0] == '"' && quoted.last() == '"');
    assert(before + quoted + after =~= before + (quoted + after));
    assert((quoted + after)[0] == '"');
    lemma_trimmed_start(before, quoted + after);
    lemma_trimmed_end(quoted, after);
    assert forall|i: int| 0 < i < quoted.len() - 1 implies is_plain(#[trigger] quoted[i]) by {
        assert(quoted[i] == path[i - 1]);
    }
    assert(plain_content(quoted) =~= path);
}

/// A line that holds a path between quotes, with blanks around it and no escapes in it, gives the
/// path.
pub proof fn lemma_line_gives_its_path(
    line: &str,
    before: Seq<char>,
    path: Seq<char>,
    after: Seq<char>,
    r: Result<String, RenderError>,
)
    requires
        line@ == before + (seq!['"'] + path + seq!['"']) + after,
        forall|i: int| 0 <= i < before.len() ==> text::is_blank(#[trigger] before[i]),
        forall|i: int| 0 <= i < after.len() ==> text::is_blank(#[trigger] after[i]),
        forall|i: int|
            0 <= i < path.len() ==> (#[trigger] path[i]) as u32 >= 0x20 && path[i] != '"'
                && path[i] != '\\',
        call_ensures(output_path, (line,), r),
    ensures
        r is Ok && r->Ok_0@ == path,
{
    lemma_plain_path_is_read_back(before, path, after);
}

/// What was read is handed on as it is, a path as a path and an error as an error.
pub proof fn lemma_read_path_is_handed_on(
    parsed: Result<String, serde_json::Error>,
    r: Result<String, RenderError>,
)
    requires
        call_ensures(accept_output_path, (parsed,), r),
    ensures
        r is Ok <==> parsed is Ok,
        parsed matches Ok(path) ==> r->Ok_0 == path,
        parsed matches Err(e) ==> r->Err_0 == RenderError::OutputPath(e),
{
}

} // verus!
