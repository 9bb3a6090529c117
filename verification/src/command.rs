//! Command-mode detection: a query that starts with the configured prefix
//! is a literal shell command, not a search term.  The predicate gates both
//! ranking (every entry is hidden in command mode) and activation (the
//! query is executed directly instead of the selected entry).

use vstd::prelude::*;
use vstd::string::StrSliceExecFns;
use crate::text::{is_prefix_of, trim_spec, str_chars, trim_range};

verus! {

/// The query is in command mode: the prefix is non-empty and the query
/// starts with it.
pub open spec fn is_command(query: Seq<char>, prefix: Seq<char>) -> bool {
    prefix.len() > 0 && is_prefix_of(prefix, query)
}

/// Whether `text` is to be treated as a literal shell command under the
/// configured command prefix.
pub fn is_cmd(text: &str, cmd_prefix: &str) -> (r: bool)
    ensures
        r == is_command(text@, cmd_prefix@),
{
    !cmd_prefix.is_empty() && crate::text::str_starts_with(text, cmd_prefix)
}

/// The command line carried by a command-mode query: everything after the
/// prefix, with surrounding whitespace removed.
pub open spec fn command_text(query: Seq<char>, prefix: Seq<char>) -> Seq<char> {
    trim_spec(query.skip(prefix.len() as int))
}

/// The characters of the command line inside a command-mode query.
pub fn extract_command(text: &str, cmd_prefix: &str) -> (r: Vec<char>)
    requires
        is_command(text@, cmd_prefix@),
    ensures
        r@ == command_text(text@, cmd_prefix@),
{
    let cs = str_chars(text);
    let p: usize = cmd_prefix.unicode_len();
    let r = trim_range(&cs, p, cs.len());
    assert(cs@.subrange(p as int, cs@.len() as int) =~= text@.skip(p as int));
    r
}

} // verus!
