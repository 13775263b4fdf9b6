//! Texts for the errors that end a start-up.

use vstd::prelude::*;
use vstd::string::StringExecFns;
use crate::errors::RuleConfigError;
use crate::text::texts;

verus! {

/// The kinds of I/O failure that get a text of their own.
#[derive(Debug, Clone, Copy, PartialEq, Eq, Structural)]
pub enum IoErrorKind {
    NotFound,
    PermissionDenied,
    AlreadyExists,
    WriteZero,
    UnexpectedEof,
    /// Any other failure; its text is that of the failure itself.
    Other,
}

/// The text for an I/O failure of the given kind on the file `filepath`.
/// `detail` is the failure in its own words.
pub open spec fn io_error_message(filepath: Seq<char>, kind: IoErrorKind, detail: Seq<char>) -> Seq<
    char,
> {
    match kind {
        IoErrorKind::NotFound => "The file '"@ + filepath + "' was not found."@,
        IoErrorKind::PermissionDenied =>
            "Permission denied. You may not have the necessary permissions to access the file '"@
            + filepath + "'."@,
        IoErrorKind::AlreadyExists => "The file '"@ + filepath + "' already exists."@,
        IoErrorKind::WriteZero => "An attempt was made to write zero bytes to '"@ + filepath
            + "'."@,
        IoErrorKind::UnexpectedEof => "An unexpected end of file was encountered at '"@ + filepath
            + "'."@,
        IoErrorKind::Other => "An unknown I/O error occurred when accessing '"@ + filepath
            + "': "@ + detail,
    }
}

/// `before`, `middle` and `after` in one string.
fn enclose(before: &str, middle: &str, after: &str) -> (text: String)
    ensures
        text@ == before@ + middle@ + after@,
{
    let mut text = before.to_owned();
    text.append(middle);
    text.append(after);
    text
}

/// Says what went wrong when the file `filepath` could not be read.
pub fn handle_io_error(filepath: &str, kind: IoErrorKind, detail: &str) -> (text: String)
    ensures
        text@ == io_error_message(filepath@, kind, detail@),
{
    match kind {
        IoErrorKind::NotFound => enclose("The file '", filepath, "' was not found."),
        IoErrorKind::PermissionDenied => enclose(
            "Permission denied. You may not have the necessary permissions to access the file '",
            filepath,
            "'.",
        ),
        IoErrorKind::AlreadyExists => enclose("The file '", filepath, "' already exists."),
        IoErrorKind::WriteZero => enclose(
            "An attempt was made to write zero bytes to '",
            filepath,
            "'.",
        ),
        IoErrorKind::UnexpectedEof => enclose(
            "An unexpected end of file was encountered at '",
            filepath,
            "'.",
        ),
        IoErrorKind::Other => {
            let mut text = enclose("An unknown I/O error occurred when accessing '", filepath, "': ");
            text.append(detail);
            text
        },
    }
}

/// Says which lines of the configuration file `filepath` were refused.
pub fn handle_config_error(filepath: &str, e: &RuleConfigError) -> (text: String)
    ensures
        text@ == "Error in config file '"@ + filepath@ + "': "@ + e.spec_message(),
{
    let mut text = enclose("Error in config file '", filepath, "': ");
    let message = e.message();
    text.append(message.as_str());
    text
}

/// The texts `items` as the entries of a list: between two entries stands a
/// line feed and a dash.
pub open spec fn dash_list(items: Seq<Seq<char>>) -> Seq<char>
    decreases items.len(),
{
    if items.len() == 0 {
        Seq::empty()
    } else if items.len() == 1 {
        items[0]
    } else {
        dash_list(items.drop_last()) + "\n  - "@ + items.last()
    }
}

/// Lists the failures of the audio server, given each in its own words.
pub fn handle_jack_router_error(reasons: &Vec<String>) -> (text: String)
    ensures
        text@ == "The following Jack-related errors occurred:\n  - "@ + dash_list(texts(reasons@)),
{
    let ghost all = texts(reasons@);
    let mut list = String::new();
    let mut i: usize = 0;
    proof {
        assert(all.take(0) =~= Seq::<Seq<char>>::empty());
    }
    while i < reasons.len()
        invariant
            i <= reasons@.len(),
            all == texts(reasons@),
            list@ == dash_list(all.take(i as int)),
        decreases reasons.len() - i,
    {
        let ghost before = list@;
        if i > 0 {
            list.append("\n  - ");
        }
        list.append(reasons[i].as_str());
        proof {
            let done = all.take(i + 1);
            assert(done.drop_last() =~= all.take(i as int));
            assert(done.last() == reasons@[i as int]@);
            if i == 0 {
                assert(done[0] == reasons@[0]@);
                assert(Seq::<char>::empty() + reasons@[0]@ =~= reasons@[0]@);
            } else {
                assert(list@ =~= before + "\n  - "@ + reasons@[i as int]@);
            }
        }
        i += 1;
    }
    proof {
        assert(all.take(reasons@.len() as int) =~= all);
    }
    let mut text = "The following Jack-related errors occurred:\n  - ".to_owned();
    text.append(list.as_str());
    text
}

} // verus!
