//! Names of the generated documentation files.
use vstd::prelude::*;
use crate::text::concat2;

verus! {

/// The path of a subcommand in the documentation: its parent's path, a dash, its name.
pub fn doc_command_path(parent: &str, name: &str) -> (res: String)
    ensures
        res@ == parent@ + "-"@ + name@,
{
    let mut s = concat2(parent, "-");
    s.append(name);
    s
}

/// The file name for a documented command: its path without one leading dash,
/// a dot, and the extension.
pub open spec fn spec_doc_file_name(path: Seq<char>, ext: Seq<char>) -> Seq<char> {
    (if path.len() > 0 && path[0] == '-' { path.drop_first() } else { path }) + "."@ + ext
}

/// The file name for a documented command.
pub fn doc_file_name(path: &str, ext: &str) -> (res: String)
    ensures
        res@ == spec_doc_file_name(path@, ext@),
{
    let n = path.unicode_len();
    let stem = if n > 0 && path.get_char(0) == '-' {
        path.substring_char(1, n)
    } else {
        path.substring_char(0, n)
    };
    proof {
        assert(path@.subrange(1, n as int) =~= path@.drop_first());
        assert(path@.subrange(0, n as int) =~= path@);
    }
    let mut s = concat2(stem, ".");
    s.append(ext);
    s
}

} // verus!
