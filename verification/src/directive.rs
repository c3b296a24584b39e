//! Directives: what a line of a template can ask for.
//!
//! A directive is found on a line by the sentinel `TXTPP#`. What stands before
//! the sentinel is remembered, so that the lines that follow can be told to
//! continue the directive or not.
use crate::text::{
    ends_with_newline, find, leading_whitespace_len, lines, spec_find, spec_join, spec_lines,
    spec_starts_with, spec_trim, spec_trim_end, starts_with, str_eq, to_chars, trim, trim_end,
    views, ws_run,
};
use vstd::prelude::*;

verus! {

/// The sentinel that marks a directive on a line.
pub const TXTPP_HASH: &'static str = "TXTPP#";

/// The characters of [`TXTPP_HASH`].
pub open spec fn sentinel() -> Seq<char> {
    seq!['T', 'X', 'T', 'P', 'P', '#']
}

/// A single space, the character that ends a directive's name.
pub open spec fn space() -> Seq<char> {
    seq![' ']
}

/// The kind of a directive.
#[derive(Debug, PartialEq, Eq, Clone, Copy, Structural)]
pub enum DirectiveType {
    /// Empty directive: its lines are consumed and give nothing
    Empty,
    /// Include directive, argument is path to a file
    Include,
    /// Run directive, argument is a command
    Run,
    /// Tag directive, argument is the name of the tag
    Tag,
    /// Temp directive, arguments are a path and the content of the file
    Temp,
    /// Write directive, arguments are the text to write
    Write,
}

/// The kind that a directive's name stands for.
pub open spec fn spec_kind_of(name: Seq<char>) -> Option<DirectiveType> {
    if name == Seq::<char>::empty() {
        Some(DirectiveType::Empty)
    } else if name == "include"@ {
        Some(DirectiveType::Include)
    } else if name == "run"@ {
        Some(DirectiveType::Run)
    } else if name == "tag"@ {
        Some(DirectiveType::Tag)
    } else if name == "temp"@ {
        Some(DirectiveType::Temp)
    } else if name == "write"@ {
        Some(DirectiveType::Write)
    } else {
        None
    }
}

/// The name that stands for a kind after the sentinel.
pub open spec fn spec_name_of(kind: DirectiveType) -> Seq<char> {
    match kind {
        DirectiveType::Empty => ""@,
        DirectiveType::Include => "include"@,
        DirectiveType::Run => "run"@,
        DirectiveType::Tag => "tag"@,
        DirectiveType::Temp => "temp"@,
        DirectiveType::Write => "write"@,
    }
}

impl DirectiveType {
    /// Whether lines that follow the first can continue a directive of this kind.
    pub open spec fn spec_supports_multi_line(&self) -> bool {
        !(self is Include || self is Tag)
    }

    /// Does directive support multi-line arguments
    #[verifier::when_used_as_spec(spec_supports_multi_line)]
    pub fn supports_multi_line(&self) -> (b: bool)
        ensures
            b == self.spec_supports_multi_line(),
    {
        !matches!(self, DirectiveType::Include | DirectiveType::Tag)
    }

    /// The kind that a name stands for, if it is the name of a directive.
    pub fn from_name(name: &str) -> (r: Option<DirectiveType>)
        ensures
            r == spec_kind_of(name@),
    {
        if name.unicode_len() == 0 {
            assert(name@ =~= Seq::<char>::empty());
            Some(DirectiveType::Empty)
        } else if str_eq(name, "include") {
            Some(DirectiveType::Include)
        } else if str_eq(name, "run") {
            Some(DirectiveType::Run)
        } else if str_eq(name, "tag") {
            Some(DirectiveType::Tag)
        } else if str_eq(name, "temp") {
            Some(DirectiveType::Temp)
        } else if str_eq(name, "write") {
            Some(DirectiveType::Write)
        } else {
            None
        }
    }

    /// The name that stands for this kind after the sentinel.
    pub fn name(&self) -> (s: &'static str)
        ensures
            s@ == spec_name_of(*self),
            spec_kind_of(s@) == Some(*self),
    {
        proof {
            reveal_strlit("");
            reveal_strlit("include");
            reveal_strlit("run");
            reveal_strlit("tag");
            reveal_strlit("temp");
            reveal_strlit("write");
        }
        match self {
            DirectiveType::Empty => {
                assert(""@ =~= Seq::<char>::empty());
                ""
            },
            DirectiveType::Include => {
                assert("include"@.len() != 0);
                "include"
            },
            DirectiveType::Run => {
                assert("run"@.len() != "include"@.len());
                "run"
            },
            DirectiveType::Tag => {
                assert("tag"@.len() != "include"@.len());
                assert("tag"@[0] != "run"@[0]);
                "tag"
            },
            DirectiveType::Temp => {
                assert("temp"@.len() != "include"@.len());
                assert("temp"@.len() != "run"@.len());
                "temp"
            },
            DirectiveType::Write => {
                assert("write"@.len() != "include"@.len());
                assert("write"@.len() != "run"@.len());
                assert("write"@.len() != "temp"@.len());
                "write"
            },
        }
    }
}

/// Directive struct
///
/// This object stores information detected from line that contains a directive
#[derive(Debug, PartialEq)]
pub struct Directive {
    /// The whitespaces string before the first non-whitespace character in the line
    pub whitespaces: String,
    /// The content from the first non-whitespace to the directive prefix `TXTPP#`
    pub prefix: String,
    /// The directive type
    pub directive_type: DirectiveType,
    /// The arguments of the directive
    pub args: Vec<String>,
}

/// What a directive holds, as plain values.
pub struct DirectiveView {
    pub whitespaces: Seq<char>,
    pub prefix: Seq<char>,
    pub directive_type: DirectiveType,
    pub args: Seq<Seq<char>>,
}

impl View for Directive {
    type V = DirectiveView;

    open spec fn view(&self) -> DirectiveView {
        DirectiveView {
            whitespaces: self.whitespaces@,
            prefix: self.prefix@,
            directive_type: self.directive_type,
            args: views(self.args@),
        }
    }
}

/// The name and the first argument that stand after the sentinel: the name
/// ends at the first space, and the argument is the rest, trimmed.
pub open spec fn spec_name_and_arg(after: Seq<char>) -> (Seq<char>, Seq<char>) {
    match spec_find(after, space()) {
        Some(j) => (after.take(j), spec_trim(after.skip(j + 1))),
        None => (after, Seq::empty()),
    }
}

/// The directive that a line holds, if it holds one.
pub open spec fn spec_detect(line: Seq<char>) -> Option<DirectiveView> {
    let k = ws_run(line, 0);
    let rest = line.skip(k);
    match spec_find(rest, sentinel()) {
        None => None,
        Some(i) => {
            let (name, arg) = spec_name_and_arg(rest.skip(i + sentinel().len()));
            match spec_kind_of(name) {
                None => None,
                Some(kind) => Some(
                    DirectiveView {
                        whitespaces: line.take(k),
                        prefix: rest.take(i),
                        directive_type: kind,
                        args: seq![arg],
                    },
                ),
            }
        },
    }
}

/// `n` spaces.
pub open spec fn spaces(n: nat) -> Seq<char> {
    Seq::new(n, |i: int| ' ')
}

/// Length of a text in bytes, as UTF-8.
pub open spec fn byte_len(s: Seq<char>) -> nat {
    vstd::utf8::encode_utf8(s).len()
}

/// The argument that `line` adds to the directive `d`, if it continues `d`.
///
/// The line has to begin with the directive's whitespace. What follows is
/// either the directive's prefix without its trailing whitespace and nothing
/// more, or begins with the prefix, or with as many spaces as the prefix has
/// bytes.
pub open spec fn spec_continuation(d: DirectiveView, line: Seq<char>) -> Option<Seq<char>> {
    if !d.directive_type.spec_supports_multi_line() || !spec_starts_with(line, d.whitespaces) {
        None
    } else {
        let rem = line.skip(d.whitespaces.len() as int);
        if rem == spec_trim_end(d.prefix) {
            Some(Seq::empty())
        } else if spec_starts_with(rem, d.prefix) {
            Some(spec_trim_end(rem.skip(d.prefix.len() as int)))
        } else if spec_starts_with(rem, spaces(byte_len(d.prefix))) {
            Some(spec_trim_end(rem.skip(byte_len(d.prefix) as int)))
        } else {
            None
        }
    }
}

/// Each line with `whitespaces` before it.
pub open spec fn spec_indent(whitespaces: Seq<char>, lines: Seq<Seq<char>>) -> Seq<Seq<char>> {
    Seq::new(lines.len(), |i: int| whitespaces + lines[i])
}

/// A directive's output as it is written: every line of `raw` behind the
/// directive's whitespace, the lines joined by `line_ending`, and one more
/// `line_ending` where `raw` ends in a line feed.
pub open spec fn spec_format_output(
    whitespaces: Seq<char>,
    raw: Seq<char>,
    line_ending: Seq<char>,
) -> Seq<char> {
    spec_join(spec_indent(whitespaces, spec_lines(raw)), line_ending) + (if raw.len() > 0
        && raw.last() == '\n' {
        line_ending
    } else {
        Seq::empty()
    })
}

/// A directive as it is shown, see [`Directive::to_string`].
pub open spec fn spec_show(d: DirectiveView) -> Seq<char> {
    d.whitespaces + d.prefix + sentinel() + spec_name_of(d.directive_type) + " "@ + (if d.args.len()
        > 0 {
        d.args[0]
    } else {
        Seq::empty()
    }) + if d.args.len() != 1 {
        " ..."@
    } else {
        Seq::empty()
    }
}

/// Whether `v` begins with `n` spaces.
fn begins_with_spaces(v: &Vec<char>, n: usize) -> (b: bool)
    ensures
        b == spec_starts_with(v@, spaces(n as nat)),
{
    if n > v.len() {
        return false;
    }
    let mut i: usize = 0;
    while i < n
        invariant
            i <= n <= v.len(),
            forall|j: int| 0 <= j < i ==> v@[j] == ' ',
        decreases n - i,
    {
        if v[i] != ' ' {
            assert(v@.subrange(0, n as int)[i as int] == v@[i as int]);
            assert(spaces(n as nat)[i as int] == ' ');
            return false;
        }
        i += 1;
    }
    assert(v@.subrange(0, n as int) =~= spaces(n as nat));
    true
}

impl Directive {
    /// Create a new directive
    pub fn new(whitespaces: &str, prefix: &str, directive_type: DirectiveType, args: Vec<String>) -> (d:
        Self)
        ensures
            d.whitespaces@ == whitespaces@,
            d.prefix@ == prefix@,
            d.directive_type == directive_type,
            d.args == args,
    {
        Self {
            whitespaces: String::from_str(whitespaces),
            prefix: String::from_str(prefix),
            directive_type,
            args,
        }
    }

    /// Try detecting a directive from a line
    ///
    /// # Arguments
    /// `line`: The line to detect the directive from.
    /// The line should not have new line characters (`\r\n` or `\n`) at the end.
    ///
    /// # Returns
    /// The detected directive with its first argument from the line,
    /// or [`None`] if the line is not a directive.
    pub fn detect_from(line: &str) -> (r: Option<Directive>)
        ensures
            match r {
                Some(d) => spec_detect(line@) == Some(d@),
                None => spec_detect(line@) is None,
            },
    {
        proof {
            reveal_strlit("TXTPP#");
            reveal_strlit(" ");
            assert(TXTPP_HASH@ =~= sentinel());
            assert(" "@ =~= space());
        }
        // Get leading whitespaces
        let n = line.unicode_len();
        let k = leading_whitespace_len(line);
        let whitespaces = line.substring_char(0, k);
        let rest = line.substring_char(k, n);

        // Get prefix
        let i = match find(rest, TXTPP_HASH) {
            Some(i) => i,
            None => return None,
        };
        let prefix = rest.substring_char(0, i);

        // Get directive name and first argument
        let after = rest.substring_char(i + 6, n - k);
        let after_len = n - k - (i + 6);
        let (name, arg) = match find(after, " ") {
            Some(j) => (after.substring_char(0, j), trim(after.substring_char(j + 1, after_len))),
            None => {
                proof {
                    reveal_strlit("");
                    assert(""@ =~= Seq::<char>::empty());
                }
                (after, "")
            },
        };

        // Parse type
        let directive_type = match DirectiveType::from_name(name) {
            Some(x) => x,
            None => return None,
        };
        let mut args: Vec<String> = Vec::new();
        args.push(String::from_str(arg));
        assert(views(args@) =~= seq![arg@]);
        Some(Directive::new(whitespaces, prefix, directive_type, args))
    }

    /// Add the next line to the argument
    ///
    /// # Arguments
    /// `line`: The line to add to the argument.
    /// The line should not have new line characters (`\r\n` or `\n`) at the end.
    ///
    /// # Returns
    /// Returns [`Ok`] if the the format of the line is correct as a continuation of the directive,
    /// and the directive supports multi-line arguments. Otherwise, returns [`Err`]
    /// and leaves the directive as it was.
    pub fn add_line(&mut self, line: &str) -> (r: Result<(), ()>)
        ensures
            match spec_continuation(old(self)@, line@) {
                Some(arg) => r is Ok && final(self)@ == (DirectiveView {
                    args: old(self)@.args.push(arg),
                    ..old(self)@
                }),
                None => r is Err && *final(self) == *old(self),
            },
            !old(self).directive_type.spec_supports_multi_line() ==> r is Err,
    {
        if !self.directive_type.supports_multi_line() {
            return Err(());
        }
        if !starts_with(line, self.whitespaces.as_str()) {
            return Err(());
        }
        let n = line.unicode_len();
        let w = self.whitespaces.as_str().unicode_len();
        let rem = line.substring_char(w, n);
        let ghost before = self.args@;
        if str_eq(rem, trim_end(self.prefix.as_str())) {
            self.args.push(String::new());
            assert(views(self.args@) =~= views(before).push(Seq::empty()));
            return Ok(());
        }
        let skip = if starts_with(rem, self.prefix.as_str()) {
            self.prefix.as_str().unicode_len()
        } else {
            let bytes = self.prefix.as_str().as_bytes().len();
            let v = to_chars(rem);
            if !begins_with_spaces(&v, bytes) {
                return Err(());
            }
            bytes
        };
        let arg = String::from_str(trim_end(rem.substring_char(skip, n - w)));
        self.args.push(arg);
        assert(views(self.args@) =~= views(before).push(arg@));
        Ok(())
    }

    /// The directive as it is shown: its first line, and `...` where it
    /// has more lines or no argument at all.
    pub fn to_string(&self) -> (r: String)
        ensures
            r@ == spec_show(self@),
    {
        proof {
            reveal_strlit("TXTPP#");
            assert(TXTPP_HASH@ =~= sentinel());
        }
        let mut s = self.whitespaces.clone();
        s.append(self.prefix.as_str());
        s.append(TXTPP_HASH);
        s.append(self.directive_type.name());
        s.append(" ");
        if self.args.len() > 0 {
            s.append(self.args[0].as_str());
        }
        if self.args.len() != 1 {
            s.append(" ...");
        } else {
            assert(s@ + Seq::<char>::empty() =~= s@);
        }
        if self.args.len() == 0 {
            assert(self@.whitespaces + self@.prefix + sentinel() + spec_name_of(
                self.directive_type,
            ) + " "@ + Seq::<char>::empty() + " ..."@ =~= s@);
        }
        s
    }

    /// A directive's output as it is written, see [`spec_format_output`].
    pub fn format_output(whitespaces: &str, raw_output: &str, line_ending: &str) -> (r: String)
        ensures
            r@ == spec_format_output(whitespaces@, raw_output@, line_ending@),
    {
        let ls = lines(raw_output);
        let mut out = String::new();
        let ghost indented = spec_indent(whitespaces@, spec_lines(raw_output@));
        let mut i: usize = 0;
        while i < ls.len()
            invariant
                i <= ls.len(),
                views(ls@) == spec_lines(raw_output@),
                indented == spec_indent(whitespaces@, spec_lines(raw_output@)),
                out@ == spec_join(indented.take(i as int), line_ending@),
            decreases ls.len() - i,
        {
            if i > 0 {
                out.append(line_ending);
            }
            out.append(whitespaces);
            out.append(ls[i].as_str());
            proof {
                let next = indented.take(i + 1);
                assert(next.drop_last() =~= indented.take(i as int));
                assert(views(ls@)[i as int] == ls@[i as int]@);
                assert(next.last() == whitespaces@ + ls@[i as int]@);
                if i > 0 {
                    assert(out@ =~= spec_join(next.drop_last(), line_ending@) + line_ending@
                        + next.last());
                } else {
                    assert(out@ =~= next[0]);
                }
            }
            i += 1;
        }
        assert(indented.take(ls.len() as int) =~= indented);
        if ends_with_newline(raw_output) {
            out.append(line_ending);
        } else {
            assert(out@ + Seq::<char>::empty() =~= out@);
        }
        out
    }
}

/// A directive that was just found has one argument. Those of the kinds
/// that take one line keep it at that: no line continues them.
pub proof fn lemma_single_line_directives(line: Seq<char>, next: Seq<char>)
    requires
        spec_detect(line) is Some,
    ensures
        spec_detect(line)->0.args.len() == 1,
        !spec_detect(line)->0.directive_type.spec_supports_multi_line() ==> spec_continuation(
            spec_detect(line)->0,
            next,
        ) is None,
{
}

} // verus!
