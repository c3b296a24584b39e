//! Line endings: which one a file uses, and rewriting a text to one of them.
use crate::text::{ends_with_newline, join, lines, spec_join, spec_lines};
use vstd::prelude::*;

verus! {

/// Carriage return and line feed.
pub const CRLF: &'static str = "\r\n";

/// Line feed.
pub const LF: &'static str = "\n";

/// The line ending that the first line of a file shows.
///
/// `buf` holds the file's bytes up to and with the first line feed, or all of
/// them where it has none, and `len` says how many they are. A line feed at
/// the end means LF, or CRLF where a carriage return stands before it. A file
/// that shows neither has the platform's line ending, `os_default`.
pub open spec fn spec_line_ending(buf: Seq<u8>, len: int, os_default: Seq<char>) -> Seq<char> {
    if len >= 1 && buf[len - 1] == 10u8 {
        if len >= 2 && buf[len - 2] == 13u8 {
            CRLF@
        } else {
            LF@
        }
    } else {
        os_default
    }
}

/// The line ending that the first line of a file shows, see [`spec_line_ending`].
pub fn get_line_ending_from_buf(buf: &[u8], len: usize, os_default: &'static str) -> (r:
    &'static str)
    requires
        len <= buf@.len(),
    ensures
        r@ == spec_line_ending(buf@, len as int, os_default@),
{
    if len == 0 {
        os_default
    } else if len == 1 {
        if buf[0] == 10u8 {
            LF
        } else {
            os_default
        }
    } else {
        if buf[len - 1] == 10u8 {
            if buf[len - 2] == 13u8 {
                CRLF
            } else {
                LF
            }
        } else {
            os_default
        }
    }
}

/// A text with every line ending rewritten to `line_ending`. The text ends
/// in a line ending if it ended in a line feed before, or if one is forced.
pub open spec fn spec_replace_line_ending(
    s: Seq<char>,
    line_ending: Seq<char>,
    force_trailing_newline: bool,
) -> Seq<char> {
    spec_join(spec_lines(s), line_ending) + (if force_trailing_newline || (s.len() > 0 && s.last()
        == '\n') {
        line_ending
    } else {
        Seq::empty()
    })
}

/// Texts whose line endings can be rewritten.
pub trait ReplaceLineEnding {
    fn replace_line_ending(&self, line_ending: &str, force_trailing_newline: bool) -> String;
}

impl ReplaceLineEnding for str {
    fn replace_line_ending(&self, line_ending: &str, force_trailing_newline: bool) -> (r: String)
        ensures
            r@ == spec_replace_line_ending(self@, line_ending@, force_trailing_newline),
    {
        let has_trailing_newline = force_trailing_newline || ends_with_newline(self);
        let ls = lines(self);
        let mut result = join(&ls, line_ending);
        if has_trailing_newline {
            result.append(line_ending);
        } else {
            assert(result@ + Seq::<char>::empty() =~= result@);
        }
        result
    }
}

} // verus!
