//! The preprocessor of one file, as a state machine.
//!
//! The machine reads no file and runs no command. It says what it needs
//! next, a [`PpRequest`], and is told what came of it, a [`PpReply`]. It
//! starts by waiting for the first line of the input, and goes on until a
//! request says that the file is done or has failed.
use crate::config::Mode;
use crate::directive::{
    spec_continuation, spec_detect, spec_format_output, Directive, DirectiveType, DirectiveView,
};
use crate::error::{PpError, PpErrorKind, PpErrorView};
use crate::io_context::{built, encoded, lemma_verify_after_build, CtxOutView};
use crate::path::{abs_views, spec_is_txtpp_file, AbsPath, AbsPathView, TxtppPath};
use crate::tag_state::{TagState, TagStateView};
use crate::text::{join, join_from, spec_join, views};
use vstd::prelude::*;

verus! {

/// How the directives of a file are treated.
#[derive(Debug)]
pub enum PpMode {
    /// Execute until the first dep, and turn into `CollectDeps`
    FirstPassExecute,
    /// Execute, don't collect deps
    Execute,
    /// Just collect deps
    CollectDeps(Vec<AbsPath>),
}

/// A [`PpMode`] as plain values.
pub enum PpModeView {
    FirstPassExecute,
    Execute,
    CollectDeps(Seq<AbsPathView>),
}

impl PpModeView {
    /// Whether directives are executed and output is written.
    pub open spec fn is_execute(self) -> bool {
        !(self is CollectDeps)
    }
}

impl View for PpMode {
    type V = PpModeView;

    open spec fn view(&self) -> PpModeView {
        match self {
            PpMode::FirstPassExecute => PpModeView::FirstPassExecute,
            PpMode::Execute => PpModeView::Execute,
            PpMode::CollectDeps(deps) => PpModeView::CollectDeps(abs_views(deps@)),
        }
    }
}

impl PpMode {
    /// Whether directives are executed and output is written.
    pub fn is_execute(&self) -> (b: bool)
        ensures
            b == self@.is_execute(),
    {
        matches!(self, PpMode::Execute | PpMode::FirstPassExecute)
    }
}

/// Processing result
#[derive(Debug)]
pub enum PpResult {
    /// File was processed successfully
    Finished(AbsPath),
    /// Dependency is found
    HasDeps(AbsPath, Vec<AbsPath>),
}

/// A [`PpResult`] as plain values.
pub enum PpResultView {
    Finished(AbsPathView),
    HasDeps(AbsPathView, Seq<AbsPathView>),
}

impl View for PpResult {
    type V = PpResultView;

    open spec fn view(&self) -> PpResultView {
        match self {
            PpResult::Finished(input) => PpResultView::Finished(input@),
            PpResult::HasDeps(input, deps) => PpResultView::HasDeps(input@, abs_views(deps@)),
        }
    }
}

/// Result of reading the next line of a directive
#[derive(Debug)]
pub enum IterDirectiveResult {
    /// Stop processing
    Break,
    /// The directive is none and the line is not a directive
    Passthrough(String),
    /// The next line is taken by the directive
    LineTaken,
    /// The directive is complete and should be executed
    Execute(Directive, Option<String>),
}

/// What a line does to the directive that is being read.
pub enum IterOutcome {
    /// The input is over and no directive is being read.
    Break,
    /// No directive is being read and the line holds none: it is content.
    Passthrough(Seq<char>),
    /// The line begins or continues the directive, which is now this one.
    LineTaken(DirectiveView),
    /// The directive is complete. The line, if there is one, does not
    /// continue it and is still to be treated.
    Execute(DirectiveView, Option<Seq<char>>),
    /// The line begins a directive that can go over several lines, and has
    /// nothing before the sentinel by which they could be told.
    Invalid,
}

/// What the next line, or the end of the input, does to the directive `cur`
/// that is being read.
pub open spec fn spec_iterate(cur: Option<DirectiveView>, line: Option<Seq<char>>) -> IterOutcome {
    match line {
        None => match cur {
            Some(d) => IterOutcome::Execute(d, None),
            None => IterOutcome::Break,
        },
        Some(l) => match cur {
            None => match spec_detect(l) {
                Some(d) => if d.directive_type.spec_supports_multi_line() && d.prefix.len() == 0 {
                    IterOutcome::Invalid
                } else {
                    IterOutcome::LineTaken(d)
                },
                None => IterOutcome::Passthrough(l),
            },
            Some(d) => match spec_continuation(d, l) {
                Some(arg) => IterOutcome::LineTaken(DirectiveView { args: d.args.push(arg), ..d }),
                None => IterOutcome::Execute(d, Some(l)),
            },
        },
    }
}

/// What the machine asks for.
#[derive(Debug)]
pub enum PpRequest {
    /// The next line of the input, without its line ending.
    NextLine,
    /// The template that gives the file of this path, if there is one. The
    /// path is taken from the directory of the input.
    FindDependency(String),
    /// The standard output of this command, run in the shell in the
    /// directory of the input.
    Run(String),
    /// The content of the file of this path, taken from the directory of the input.
    ReadInclude(String),
    /// That the file of this path holds this content.
    WriteTemp(String, String),
    /// That the file of this path is removed if it exists.
    RemoveTemp(String),
    /// That this text is added to the output.
    Write(String),
    /// That the output is finished: what was kept of it is written, and
    /// where it is compared, the file that it is compared with has to be at
    /// its end. This is asked once all of the output was handed out, and not
    /// at all where the file is found to have dependencies.
    Finish,
    /// Nothing more: the file is done.
    Done(PpResult),
    /// Nothing more: the file has failed.
    Failed(PpError),
}

/// A [`PpRequest`] as plain values.
pub enum PpRequestView {
    NextLine,
    FindDependency(Seq<char>),
    Run(Seq<char>),
    ReadInclude(Seq<char>),
    WriteTemp(Seq<char>, Seq<char>),
    RemoveTemp(Seq<char>),
    Write(Seq<char>),
    Finish,
    Done(PpResultView),
    Failed(PpErrorView),
}

impl View for PpRequest {
    type V = PpRequestView;

    open spec fn view(&self) -> PpRequestView {
        match self {
            PpRequest::NextLine => PpRequestView::NextLine,
            PpRequest::FindDependency(p) => PpRequestView::FindDependency(p@),
            PpRequest::Run(c) => PpRequestView::Run(c@),
            PpRequest::ReadInclude(p) => PpRequestView::ReadInclude(p@),
            PpRequest::WriteTemp(p, c) => PpRequestView::WriteTemp(p@, c@),
            PpRequest::RemoveTemp(p) => PpRequestView::RemoveTemp(p@),
            PpRequest::Write(t) => PpRequestView::Write(t@),
            PpRequest::Finish => PpRequestView::Finish,
            PpRequest::Done(r) => PpRequestView::Done(r@),
            PpRequest::Failed(e) => PpRequestView::Failed(e@),
        }
    }
}

/// What came of a request.
#[derive(Debug)]
pub enum PpReply {
    /// The next line, `None` at the end of the input.
    Line(Option<String>),
    /// The template that was found, if one was.
    Dependency(Option<AbsPath>),
    /// What the command printed, or what the file holds.
    Output(String),
    /// The file or the output was written or finished, or the file removed.
    Completed,
    /// It could not be done.
    Failed(PpErrorKind),
}

/// A [`PpReply`] as plain values.
pub enum PpReplyView {
    Line(Option<Seq<char>>),
    Dependency(Option<AbsPathView>),
    Output(Seq<char>),
    Completed,
    Failed(PpErrorKind),
}

impl View for PpReply {
    type V = PpReplyView;

    open spec fn view(&self) -> PpReplyView {
        match self {
            PpReply::Line(l) => PpReplyView::Line(
                match l {
                    Some(s) => Some(s@),
                    None => None,
                },
            ),
            PpReply::Dependency(d) => PpReplyView::Dependency(
                match d {
                    Some(p) => Some(p@),
                    None => None,
                },
            ),
            PpReply::Output(s) => PpReplyView::Output(s@),
            PpReply::Completed => PpReplyView::Completed,
            PpReply::Failed(k) => PpReplyView::Failed(*k),
        }
    }
}

/// What the machine waits for.
#[derive(Debug, PartialEq, Eq, Clone, Copy, Structural)]
pub enum Waiting {
    /// The next line.
    Line,
    /// The template of the file that the pending directive includes.
    Dependency,
    /// The output of the pending directive.
    Output,
    /// The file of a temp directive.
    Temp,
    /// Output that was handed out.
    Written,
    /// The line ending that ends the output.
    Last,
    /// That the output is finished.
    Finish,
    /// Nothing: the file is done or has failed.
    Over,
}

/// How the machine goes on: with a request, or with the line that is kept back.
pub enum PpOutcome {
    Request(PpRequest),
    Continue,
}

/// A [`PpOutcome`] as plain values.
pub enum PpOutcomeView {
    Request(PpRequestView),
    Continue,
}

impl View for PpOutcome {
    type V = PpOutcomeView;

    open spec fn view(&self) -> PpOutcomeView {
        match self {
            PpOutcome::Request(r) => PpOutcomeView::Request(r@),
            PpOutcome::Continue => PpOutcomeView::Continue,
        }
    }
}

/// The state of the machine as plain values.
pub struct PpView {
    /// The input: its absolute path, with its base.
    pub input_file: AbsPathView,
    /// The input's path as errors show it.
    pub input_path: Seq<char>,
    pub mode: Mode,
    pub line_ending: Seq<char>,
    pub trailing_newline: bool,
    /// How many lines of the input were read.
    pub cur_line: usize,
    /// The directive that is being read.
    pub cur_directive: Option<DirectiveView>,
    pub tag_state: TagStateView,
    pub pp_mode: PpModeView,
    /// The line that ended a directive, kept back until the directive is done.
    pub execute_tail_line: Option<Seq<char>>,
    /// Whether the output so far ends in a line that still lacks its line ending.
    pub add_newline_before_next_output: bool,
    pub waiting: Waiting,
    /// The directive whose execution is under way.
    pub pending: Option<DirectiveView>,
}

/// The first argument of a directive, empty where it has none.
pub open spec fn first_arg(d: DirectiveView) -> Seq<char> {
    if d.args.len() > 0 {
        d.args[0]
    } else {
        Seq::empty()
    }
}

/// The arguments of a directive but the first.
pub open spec fn rest_args(d: DirectiveView) -> Seq<Seq<char>> {
    if d.args.len() > 0 {
        d.args.skip(1)
    } else {
        Seq::empty()
    }
}

/// The count of lines after one more: it does not go beyond what a `usize` holds.
pub open spec fn next_line_number(n: usize) -> usize {
    if n < usize::MAX {
        (n + 1) as usize
    } else {
        n
    }
}

impl PpView {
    /// The state in which a machine starts.
    pub open spec fn initial(
        input_file: AbsPathView,
        input_path: Seq<char>,
        mode: Mode,
        is_first_pass: bool,
        trailing_newline: bool,
        line_ending: Seq<char>,
    ) -> PpView {
        PpView {
            input_file,
            input_path,
            mode,
            line_ending,
            trailing_newline,
            cur_line: 0,
            cur_directive: None,
            tag_state: TagStateView { listening: None, stored: Seq::empty() },
            pp_mode: if is_first_pass {
                PpModeView::FirstPassExecute
            } else {
                PpModeView::Execute
            },
            execute_tail_line: None,
            add_newline_before_next_output: false,
            waiting: Waiting::Line,
            pending: None,
        }
    }

    /// The tags are well formed.
    pub open spec fn wf(self) -> bool {
        self.tag_state.wf()
    }

    /// The error of this kind at the place where the machine stands.
    pub open spec fn error(self, kind: PpErrorKind) -> PpErrorView {
        PpErrorView { kind, file: self.input_path, line: self.cur_line as nat }
    }

    /// The file fails.
    pub open spec fn fail(self, kind: PpErrorKind) -> (PpView, PpOutcomeView) {
        (
            PpView { waiting: Waiting::Over, pending: None, ..self },
            PpOutcomeView::Request(PpRequestView::Failed(self.error(kind))),
        )
    }

    /// Go on to the next line: the one that is kept back, if one is, else
    /// the next of the input.
    pub open spec fn advance(self) -> (PpView, PpOutcomeView) {
        if self.execute_tail_line is Some {
            (PpView { pending: None, ..self }, PpOutcomeView::Continue)
        } else {
            (
                PpView { waiting: Waiting::Line, pending: None, ..self },
                PpOutcomeView::Request(PpRequestView::NextLine),
            )
        }
    }

    /// Hand out text for the output. A line ending goes before it where the
    /// output so far lacks one. The output lacks one afterwards where the
    /// text is the output of a directive behind which no line is kept back.
    pub open spec fn emit(self, text: Seq<char>, directive: bool) -> (PpView, PpOutcomeView) {
        (
            PpView {
                add_newline_before_next_output: directive && self.execute_tail_line is None,
                waiting: Waiting::Written,
                pending: None,
                ..self
            },
            PpOutcomeView::Request(
                PpRequestView::Write(
                    (if self.add_newline_before_next_output {
                        self.line_ending
                    } else {
                        Seq::empty()
                    }) + text,
                ),
            ),
        )
    }

    /// A line of content: it is written with the tags put in, unless
    /// dependencies are being collected.
    pub open spec fn pass_line(self, line: Seq<char>) -> (PpView, PpOutcomeView) {
        if self.pp_mode.is_execute() {
            let injected = self.tag_state.inject(line, self.line_ending);
            PpView {
                tag_state: TagStateView { stored: injected.1, ..self.tag_state },
                ..self
            }.emit(injected.0, false)
        } else {
            self.advance()
        }
    }

    /// The raw output of a directive: it is stored under the tag that is
    /// listening, or else formatted and written.
    pub open spec fn finish_output(self, raw: Seq<char>, whitespaces: Seq<char>) -> (
        PpView,
        PpOutcomeView,
    ) {
        match self.tag_state.listening {
            Some(tag) => PpView {
                tag_state: TagStateView {
                    listening: None,
                    stored: self.tag_state.stored.push((tag, raw)),
                },
                ..self
            }.advance(),
            None => self.emit(spec_format_output(whitespaces, raw, self.line_ending), true),
        }
    }

    /// Execute a directive, unless dependencies are being collected.
    pub open spec fn run_directive(self, d: DirectiveView) -> (PpView, PpOutcomeView) {
        if self.pp_mode is CollectDeps {
            self.advance()
        } else {
            match d.directive_type {
                DirectiveType::Empty => self.advance(),
                DirectiveType::Run => (
                    PpView { waiting: Waiting::Output, pending: Some(d), ..self },
                    PpOutcomeView::Request(PpRequestView::Run(spec_join(d.args, " "@))),
                ),
                DirectiveType::Include => (
                    PpView { waiting: Waiting::Output, pending: Some(d), ..self },
                    PpOutcomeView::Request(PpRequestView::ReadInclude(first_arg(d))),
                ),
                DirectiveType::Temp => if d.args.len() == 0 || spec_is_txtpp_file(d.args[0]) {
                    self.fail(PpErrorKind::Directive)
                } else {
                    (
                        PpView { waiting: Waiting::Temp, pending: None, ..self },
                        PpOutcomeView::Request(
                            PpRequestView::WriteTemp(
                                d.args[0],
                                spec_join(rest_args(d), self.line_ending),
                            ),
                        ),
                    )
                },
                DirectiveType::Tag => if self.tag_state.can_create(first_arg(d)) {
                    PpView {
                        tag_state: TagStateView {
                            listening: Some(first_arg(d)),
                            ..self.tag_state
                        },
                        ..self
                    }.advance()
                } else {
                    self.fail(PpErrorKind::Directive)
                },
                DirectiveType::Write => self.finish_output(
                    spec_join(rest_args(d), "\n"@),
                    d.whitespaces,
                ),
            }
        }
    }

    /// A directive is complete.
    ///
    /// When cleaning, only a temp directive does something: its file is
    /// removed. Else, on the first pass, an include directive first asks for
    /// the template of what it includes. Every other directive is executed.
    pub open spec fn execute(self, d: DirectiveView) -> (PpView, PpOutcomeView) {
        if self.mode == Mode::Clean {
            if d.directive_type is Temp && d.args.len() > 0 && !spec_is_txtpp_file(d.args[0]) {
                (
                    PpView { waiting: Waiting::Temp, pending: None, ..self },
                    PpOutcomeView::Request(PpRequestView::RemoveTemp(d.args[0])),
                )
            } else {
                self.advance()
            }
        } else if !(self.pp_mode is Execute) && d.directive_type is Include {
            (
                PpView { waiting: Waiting::Dependency, pending: Some(d), ..self },
                PpOutcomeView::Request(PpRequestView::FindDependency(first_arg(d))),
            )
        } else {
            self.run_directive(d)
        }
    }

    /// The state with one more dependency.
    pub open spec fn collect(self, dep: AbsPathView) -> PpView {
        PpView {
            pp_mode: match self.pp_mode {
                PpModeView::CollectDeps(deps) => PpModeView::CollectDeps(deps.push(dep)),
                _ => PpModeView::CollectDeps(seq![dep]),
            },
            ..self
        }
    }

    /// All of the output was handed out: it is to be finished.
    pub open spec fn finish_output_file(self) -> (PpView, PpOutcomeView) {
        (
            PpView { waiting: Waiting::Finish, pending: None, ..self },
            PpOutcomeView::Request(PpRequestView::Finish),
        )
    }

    /// The input is over: the file is done, unless a tag is left unused.
    /// Where dependencies were found they are handed out, and nothing more
    /// is written. Else the output gets the line ending that it lacks, if it
    /// is to end in one, and is finished.
    pub open spec fn finish(self) -> (PpView, PpOutcomeView) {
        match self.pp_mode {
            PpModeView::CollectDeps(deps) => (
                PpView {
                    pp_mode: PpModeView::CollectDeps(Seq::empty()),
                    waiting: Waiting::Over,
                    pending: None,
                    ..self
                },
                PpOutcomeView::Request(
                    PpRequestView::Done(PpResultView::HasDeps(self.input_file, deps)),
                ),
            ),
            _ => if (self.tag_state.listening is Some || self.tag_state.stored.len() > 0)
                && self.mode != Mode::Clean {
                self.fail(PpErrorKind::Directive)
            } else if self.add_newline_before_next_output && self.trailing_newline {
                (
                    PpView { waiting: Waiting::Last, pending: None, ..self },
                    PpOutcomeView::Request(PpRequestView::Write(self.line_ending)),
                )
            } else {
                self.finish_output_file()
            },
        }
    }

    /// Treat the next line, or the end of the input.
    pub open spec fn process(self, line: Option<Seq<char>>) -> (PpView, PpOutcomeView) {
        match spec_iterate(self.cur_directive, line) {
            IterOutcome::Break => self.finish(),
            IterOutcome::LineTaken(d) => PpView { cur_directive: Some(d), ..self }.advance(),
            IterOutcome::Passthrough(l) => PpView { cur_directive: None, ..self }.pass_line(l),
            IterOutcome::Execute(d, tail) => PpView {
                cur_directive: None,
                execute_tail_line: tail,
                ..self
            }.execute(d),
            IterOutcome::Invalid => if self.mode == Mode::Clean {
                PpView { cur_directive: None, ..self }.pass_line(Seq::empty())
            } else {
                PpView { cur_directive: None, ..self }.fail(PpErrorKind::Directive)
            },
        }
    }

    /// Take a reply. One that the machine does not wait for makes the file fail.
    pub open spec fn handle(self, reply: PpReplyView) -> (PpView, PpOutcomeView) {
        match reply {
            PpReplyView::Line(l) => if self.waiting == Waiting::Line {
                PpView {
                    cur_line: if l is Some {
                        next_line_number(self.cur_line)
                    } else {
                        self.cur_line
                    },
                    ..self
                }.process(l)
            } else {
                self.fail(PpErrorKind::Other)
            },
            PpReplyView::Dependency(found) => if self.waiting == Waiting::Dependency
                && self.pending is Some {
                match found {
                    Some(dep) => self.collect(dep).advance(),
                    None => self.run_directive(self.pending->0),
                }
            } else {
                self.fail(PpErrorKind::Other)
            },
            PpReplyView::Output(raw) => if self.waiting == Waiting::Output && self.pending is Some {
                self.finish_output(raw, (self.pending->0).whitespaces)
            } else {
                self.fail(PpErrorKind::Other)
            },
            PpReplyView::Completed => if self.waiting == Waiting::Temp || self.waiting
                == Waiting::Written {
                self.advance()
            } else if self.waiting == Waiting::Last {
                self.finish_output_file()
            } else if self.waiting == Waiting::Finish {
                (
                    PpView { waiting: Waiting::Over, pending: None, ..self },
                    PpOutcomeView::Request(PpRequestView::Done(PpResultView::Finished(self.input_file))),
                )
            } else {
                self.fail(PpErrorKind::Other)
            },
            PpReplyView::Failed(kind) => if self.waiting == Waiting::Over {
                self.fail(PpErrorKind::Other)
            } else if self.waiting == Waiting::Dependency || self.waiting == Waiting::Output {
                self.fail(PpErrorKind::Directive)
            } else {
                self.fail(kind)
            },
        }
    }

    /// One step of the machine: the reply is taken, and where that ends a
    /// directive behind which a line is kept back, that line is treated.
    pub open spec fn step(self, reply: PpReplyView) -> (PpView, PpRequestView) {
        let first = self.handle(reply);
        match first.1 {
            PpOutcomeView::Request(r) => (first.0, r),
            PpOutcomeView::Continue => {
                let second = PpView { execute_tail_line: None, ..first.0 }.process(
                    first.0.execute_tail_line,
                );
                match second.1 {
                    PpOutcomeView::Request(r) => (second.0, r),
                    PpOutcomeView::Continue => (
                        PpView { waiting: Waiting::Line, ..second.0 },
                        PpRequestView::NextLine,
                    ),
                }
            },
        }
    }
}

/// The characters of a string that may be absent.
pub open spec fn opt_view(o: Option<String>) -> Option<Seq<char>> {
    match o {
        Some(s) => Some(s@),
        None => None,
    }
}

/// What a directive that may be absent holds.
pub open spec fn opt_directive(o: Option<Directive>) -> Option<DirectiveView> {
    match o {
        Some(d) => Some(d@),
        None => None,
    }
}

/// Whether a result says what the outcome is.
pub open spec fn says(r: Result<IterDirectiveResult, PpError>, outcome: IterOutcome) -> bool {
    match (r, outcome) {
        (Ok(IterDirectiveResult::Break), IterOutcome::Break) => true,
        (Ok(IterDirectiveResult::Passthrough(s)), IterOutcome::Passthrough(l)) => s@ == l,
        (Ok(IterDirectiveResult::LineTaken), IterOutcome::LineTaken(_)) => true,
        (Ok(IterDirectiveResult::Execute(d, tail)), IterOutcome::Execute(dv, tv)) => d@ == dv
            && opt_view(tail) == tv,
        (Err(_), IterOutcome::Invalid) => true,
        _ => false,
    }
}

/// The first argument of a directive, empty where it has none.
fn first_argument(d: &Directive) -> (r: String)
    ensures
        r@ == first_arg(d@),
{
    if d.args.len() > 0 {
        d.args[0].clone()
    } else {
        String::new()
    }
}

/// The preprocessor of one file.
pub struct Pp {
    input_file: AbsPath,
    input_path: String,
    mode: Mode,
    line_ending: String,
    trailing_newline: bool,
    cur_line: usize,
    cur_directive: Option<Directive>,
    tag_state: TagState,
    pp_mode: PpMode,
    execute_tail_line: Option<String>,
    add_newline_before_next_output: bool,
    waiting: Waiting,
    pending: Option<Directive>,
}

impl View for Pp {
    type V = PpView;

    closed spec fn view(&self) -> PpView {
        PpView {
            input_file: self.input_file@,
            input_path: self.input_path@,
            mode: self.mode,
            line_ending: self.line_ending@,
            trailing_newline: self.trailing_newline,
            cur_line: self.cur_line,
            cur_directive: opt_directive(self.cur_directive),
            tag_state: self.tag_state@,
            pp_mode: self.pp_mode@,
            execute_tail_line: opt_view(self.execute_tail_line),
            add_newline_before_next_output: self.add_newline_before_next_output,
            waiting: self.waiting,
            pending: opt_directive(self.pending),
        }
    }
}

impl Pp {
    /// The preprocessor of a file, before its first line.
    ///
    /// `input_path` is the path by which errors name the file, and
    /// `line_ending` the line ending that the file uses.
    pub fn new(
        input_file: &AbsPath,
        input_path: &str,
        mode: Mode,
        is_first_pass: bool,
        trailing_newline: bool,
        line_ending: &str,
    ) -> (pp: Self)
        ensures
            pp@ == PpView::initial(
                input_file@,
                input_path@,
                mode,
                is_first_pass,
                trailing_newline,
                line_ending@,
            ),
            pp@.wf(),
    {
        let tag_state = TagState::new();
        assert(tag_state@.stored =~= Seq::empty());
        Self {
            input_file: input_file.clone(),
            input_path: String::from_str(input_path),
            mode,
            line_ending: String::from_str(line_ending),
            trailing_newline,
            cur_line: 0,
            cur_directive: None,
            tag_state,
            pp_mode: if is_first_pass {
                PpMode::FirstPassExecute
            } else {
                PpMode::Execute
            },
            execute_tail_line: None,
            add_newline_before_next_output: false,
            waiting: Waiting::Line,
            pending: None,
        }
    }

    /// What the machine waits for.
    pub fn waiting(&self) -> (w: Waiting)
        ensures
            w == self@.waiting,
    {
        self.waiting
    }

    /// The error of this kind at the place where the machine stands.
    pub fn make_error(&self, kind: PpErrorKind) -> (e: PpError)
        ensures
            e@ == self@.error(kind),
    {
        PpError { kind, line: self.cur_line, file: self.input_path.clone() }
    }

    /// Update the directive and line based on the current directive and the next line
    ///
    /// The result says what [`spec_iterate`] gives. Afterwards the directive
    /// that is being read is the one that took the line, if one did, and
    /// none else. The error is the directive error at this line.
    pub fn iterate_directive(&mut self, line: Option<String>) -> (r: Result<
        IterDirectiveResult,
        PpError,
    >)
        ensures
            says(r, spec_iterate(old(self)@.cur_directive, opt_view(line))),
            final(self)@ == (PpView {
                cur_directive: match spec_iterate(old(self)@.cur_directive, opt_view(line)) {
                    IterOutcome::LineTaken(d) => Some(d),
                    _ => None,
                },
                ..old(self)@
            }),
            r is Err ==> r->Err_0@ == old(self)@.error(PpErrorKind::Directive),
    {
        let next = match line {
            None => {
                // End of file, execute the current directive
                match self.cur_directive.take() {
                    Some(d) => IterDirectiveResult::Execute(d, None),
                    None => IterDirectiveResult::Break,
                }
            },
            Some(line) => match self.cur_directive.take() {
                // Detect new directive
                None => match Directive::detect_from(line.as_str()) {
                    Some(d) => {
                        // make sure multi-line directives don't have empty prefix
                        if d.directive_type.supports_multi_line() && d.prefix.as_str().is_empty() {
                            return Err(self.make_error(PpErrorKind::Directive));
                        }
                        // Detected, remove this line
                        self.cur_directive = Some(d);
                        IterDirectiveResult::LineTaken
                    },
                    None => {
                        // Not detected, keep this line
                        IterDirectiveResult::Passthrough(line)
                    },
                },
                // Append to current directive
                Some(mut d) => match d.add_line(line.as_str()) {
                    Ok(_) => {
                        // Added, remove this line
                        self.cur_directive = Some(d);
                        IterDirectiveResult::LineTaken
                    },
                    Err(_) => {
                        // Not added, keep this line, and ready to execute the directive
                        IterDirectiveResult::Execute(d, Some(line))
                    },
                },
            },
        };
        Ok(next)
    }

    /// The file fails.
    fn fail(&mut self, kind: PpErrorKind) -> (r: PpOutcome)
        ensures
            (final(self)@, r@) == old(self)@.fail(kind),
            final(self)@.tag_state == old(self)@.tag_state,
    {
        let e = self.make_error(kind);
        self.waiting = Waiting::Over;
        self.pending = None;
        PpOutcome::Request(PpRequest::Failed(e))
    }

    /// Go on to the next line.
    fn advance(&mut self) -> (r: PpOutcome)
        ensures
            (final(self)@, r@) == old(self)@.advance(),
            final(self)@.tag_state == old(self)@.tag_state,
    {
        self.pending = None;
        if self.execute_tail_line.is_some() {
            PpOutcome::Continue
        } else {
            self.waiting = Waiting::Line;
            PpOutcome::Request(PpRequest::NextLine)
        }
    }

    /// Hand out text for the output.
    fn emit(&mut self, text: String, directive: bool) -> (r: PpOutcome)
        ensures
            (final(self)@, r@) == old(self)@.emit(text@, directive),
            final(self)@.tag_state == old(self)@.tag_state,
    {
        let chunk = if self.add_newline_before_next_output {
            let mut chunk = self.line_ending.clone();
            chunk.append(text.as_str());
            chunk
        } else {
            assert(Seq::<char>::empty() + text@ =~= text@);
            text
        };
        self.add_newline_before_next_output = directive && self.execute_tail_line.is_none();
        self.waiting = Waiting::Written;
        self.pending = None;
        PpOutcome::Request(PpRequest::Write(chunk))
    }

    /// A line of content.
    fn pass_line(&mut self, line: &str) -> (r: PpOutcome)
        requires
            old(self)@.wf(),
        ensures
            (final(self)@, r@) == old(self)@.pass_line(line@),
            final(self)@.wf(),
    {
        if self.pp_mode.is_execute() {
            let text = self.tag_state.inject_tags(line, self.line_ending.as_str());
            self.emit(text, false)
        } else {
            self.advance()
        }
    }

    /// The raw output of a directive.
    fn finish_output(&mut self, raw: &str, whitespaces: &str) -> (r: PpOutcome)
        requires
            old(self)@.wf(),
        ensures
            (final(self)@, r@) == old(self)@.finish_output(raw@, whitespaces@),
            final(self)@.wf(),
    {
        if self.tag_state.try_store(raw).is_err() {
            let text = Directive::format_output(whitespaces, raw, self.line_ending.as_str());
            self.emit(text, true)
        } else {
            self.advance()
        }
    }

    /// Execute a directive, unless dependencies are being collected.
    fn run_directive(&mut self, d: Directive) -> (r: PpOutcome)
        requires
            old(self)@.wf(),
        ensures
            (final(self)@, r@) == old(self)@.run_directive(d@),
            final(self)@.wf(),
    {
        if let PpMode::CollectDeps(_) = self.pp_mode {
            // if we are already collecting deps, don't execute the directive
            return self.advance();
        }
        match d.directive_type {
            DirectiveType::Empty => {
                // do nothing (consume the line)
                self.advance()
            },
            DirectiveType::Run => {
                let command = join(&d.args, " ");
                self.waiting = Waiting::Output;
                self.pending = Some(d);
                PpOutcome::Request(PpRequest::Run(command))
            },
            DirectiveType::Include => {
                let arg = first_argument(&d);
                self.waiting = Waiting::Output;
                self.pending = Some(d);
                PpOutcome::Request(PpRequest::ReadInclude(arg))
            },
            DirectiveType::Temp => {
                if d.args.len() == 0 || d.args[0].as_str().is_txtpp_file() {
                    return self.fail(PpErrorKind::Directive);
                }
                let contents = join_from(&d.args, 1, self.line_ending.as_str());
                self.waiting = Waiting::Temp;
                self.pending = None;
                PpOutcome::Request(PpRequest::WriteTemp(d.args[0].clone(), contents))
            },
            DirectiveType::Tag => {
                let tag_name = first_argument(&d);
                match self.tag_state.create(tag_name.as_str()) {
                    Ok(_) => self.advance(),
                    Err(_) => self.fail(PpErrorKind::Directive),
                }
            },
            DirectiveType::Write => {
                let raw = if d.args.len() > 0 {
                    join_from(&d.args, 1, "\n")
                } else {
                    assert(views(d.args@).skip(0) =~= Seq::empty());
                    join_from(&d.args, 0, "\n")
                };
                self.finish_output(raw.as_str(), d.whitespaces.as_str())
            },
        }
    }

    /// A directive is complete.
    fn execute(&mut self, d: Directive) -> (r: PpOutcome)
        requires
            old(self)@.wf(),
        ensures
            (final(self)@, r@) == old(self)@.execute(d@),
            final(self)@.wf(),
    {
        if let Mode::Clean = self.mode {
            if let DirectiveType::Temp = d.directive_type {
                if d.args.len() > 0 && !d.args[0].as_str().is_txtpp_file() {
                    self.waiting = Waiting::Temp;
                    self.pending = None;
                    return PpOutcome::Request(PpRequest::RemoveTemp(d.args[0].clone()));
                }
            }
            return self.advance();
        }
        let collecting = match self.pp_mode {
            PpMode::Execute => false,
            _ => true,
        };
        if collecting {
            if let DirectiveType::Include = d.directive_type {
                let arg = first_argument(&d);
                self.waiting = Waiting::Dependency;
                self.pending = Some(d);
                return PpOutcome::Request(PpRequest::FindDependency(arg));
            }
        }
        self.run_directive(d)
    }

    /// The input is over.
    fn finish(&mut self) -> (r: PpOutcome)
        ensures
            (final(self)@, r@) == old(self)@.finish(),
            final(self)@.tag_state == old(self)@.tag_state,
    {
        if let PpMode::CollectDeps(_) = self.pp_mode {
            let mut mode = PpMode::CollectDeps(Vec::new());
            assert(mode@ == PpModeView::CollectDeps(Seq::empty())) by {
                assert(abs_views(mode->CollectDeps_0@) =~= Seq::empty());
            }
            std::mem::swap(&mut self.pp_mode, &mut mode);
            let deps = match mode {
                PpMode::CollectDeps(deps) => deps,
                _ => Vec::new(),
            };
            self.waiting = Waiting::Over;
            self.pending = None;
            return PpOutcome::Request(
                PpRequest::Done(PpResult::HasDeps(self.input_file.clone(), deps)),
            );
        }
        if self.tag_state.has_tags() && !matches!(self.mode, Mode::Clean) {
            return self.fail(PpErrorKind::Directive);
        }
        if self.add_newline_before_next_output && self.trailing_newline {
            self.waiting = Waiting::Last;
            self.pending = None;
            return PpOutcome::Request(PpRequest::Write(self.line_ending.clone()));
        }
        self.finish_output_file()
    }

    /// All of the output was handed out.
    fn finish_output_file(&mut self) -> (r: PpOutcome)
        ensures
            (final(self)@, r@) == old(self)@.finish_output_file(),
            final(self)@.tag_state == old(self)@.tag_state,
    {
        self.waiting = Waiting::Finish;
        self.pending = None;
        PpOutcome::Request(PpRequest::Finish)
    }

    /// Treat the next line, or the end of the input.
    fn process(&mut self, line: Option<String>) -> (r: PpOutcome)
        requires
            old(self)@.wf(),
        ensures
            (final(self)@, r@) == old(self)@.process(opt_view(line)),
            final(self)@.wf(),
    {
        match self.iterate_directive(line) {
            Ok(IterDirectiveResult::Break) => self.finish(),
            Ok(IterDirectiveResult::LineTaken) => self.advance(),
            Ok(IterDirectiveResult::Passthrough(line)) => self.pass_line(line.as_str()),
            Ok(IterDirectiveResult::Execute(d, tail)) => {
                self.execute_tail_line = tail;
                self.execute(d)
            },
            Err(e) => {
                if let Mode::Clean = self.mode {
                    proof {
                        reveal_strlit("");
                        assert(""@ =~= Seq::<char>::empty());
                    }
                    self.pass_line("")
                } else {
                    self.waiting = Waiting::Over;
                    self.pending = None;
                    PpOutcome::Request(PpRequest::Failed(e))
                }
            },
        }
    }

    /// One more dependency.
    fn collect(&mut self, dep: AbsPath)
        ensures
            final(self)@ == old(self)@.collect(dep@),
    {
        let mut mode = PpMode::Execute;
        std::mem::swap(&mut self.pp_mode, &mut mode);
        self.pp_mode = match mode {
            PpMode::CollectDeps(mut deps) => {
                let ghost before = abs_views(deps@);
                deps.push(dep);
                assert(abs_views(deps@) =~= before.push(dep@));
                PpMode::CollectDeps(deps)
            },
            _ => {
                let mut deps: Vec<AbsPath> = Vec::new();
                deps.push(dep);
                assert(abs_views(deps@) =~= seq![dep@]);
                PpMode::CollectDeps(deps)
            },
        };
    }

    /// Take a reply.
    fn handle(&mut self, reply: PpReply) -> (r: PpOutcome)
        requires
            old(self)@.wf(),
        ensures
            (final(self)@, r@) == old(self)@.handle(reply@),
            final(self)@.wf(),
    {
        match reply {
            PpReply::Line(line) => {
                if self.waiting != Waiting::Line {
                    return self.fail(PpErrorKind::Other);
                }
                if line.is_some() && self.cur_line < usize::MAX {
                    self.cur_line = self.cur_line + 1;
                }
                self.process(line)
            },
            PpReply::Dependency(found) => {
                if self.waiting != Waiting::Dependency {
                    return self.fail(PpErrorKind::Other);
                }
                let d = match self.pending.take() {
                    Some(d) => d,
                    None => {
                        return self.fail(PpErrorKind::Other);
                    },
                };
                match found {
                    Some(dep) => {
                        self.pending = Some(d);
                        self.collect(dep);
                        self.advance()
                    },
                    None => self.run_directive(d),
                }
            },
            PpReply::Output(raw) => {
                if self.waiting != Waiting::Output {
                    return self.fail(PpErrorKind::Other);
                }
                let d = match self.pending.take() {
                    Some(d) => d,
                    None => {
                        return self.fail(PpErrorKind::Other);
                    },
                };
                let whitespaces = d.whitespaces.clone();
                self.pending = Some(d);
                self.finish_output(raw.as_str(), whitespaces.as_str())
            },
            PpReply::Completed => {
                if self.waiting == Waiting::Temp || self.waiting == Waiting::Written {
                    self.advance()
                } else if self.waiting == Waiting::Last {
                    self.finish_output_file()
                } else if self.waiting == Waiting::Finish {
                    self.waiting = Waiting::Over;
                    self.pending = None;
                    PpOutcome::Request(PpRequest::Done(PpResult::Finished(self.input_file.clone())))
                } else {
                    self.fail(PpErrorKind::Other)
                }
            },
            PpReply::Failed(kind) => {
                if self.waiting == Waiting::Over {
                    self.fail(PpErrorKind::Other)
                } else if self.waiting == Waiting::Dependency || self.waiting == Waiting::Output {
                    self.fail(PpErrorKind::Directive)
                } else {
                    self.fail(kind)
                }
            },
        }
    }

    /// One step of the machine: take what came of the last request, and
    /// say what is needed next. The first request of a machine is for the
    /// first line, and is not made: the first reply is that line.
    pub fn step(&mut self, reply: PpReply) -> (r: PpRequest)
        requires
            old(self)@.wf(),
        ensures
            (final(self)@, r@) == old(self)@.step(reply@),
            final(self)@.wf(),
    {
        match self.handle(reply) {
            PpOutcome::Request(r) => r,
            PpOutcome::Continue => {
                let tail = self.execute_tail_line.take();
                match self.process(tail) {
                    PpOutcome::Request(r) => r,
                    PpOutcome::Continue => {
                        self.waiting = Waiting::Line;
                        PpRequest::NextLine
                    },
                }
            },
        }
    }
}

/// An empty input gives an empty output: a machine that is told at once
/// that its input is over asks for nothing to be written. It asks for the
/// output to be finished, and is done.
pub proof fn lemma_empty_input(
    input_file: AbsPathView,
    input_path: Seq<char>,
    mode: Mode,
    is_first_pass: bool,
    trailing_newline: bool,
    line_ending: Seq<char>,
)
    ensures
        ({
            let first = PpView::initial(
                input_file,
                input_path,
                mode,
                is_first_pass,
                trailing_newline,
                line_ending,
            ).step(PpReplyView::Line(None));
            &&& first.1 == PpRequestView::Finish
            &&& first.0.step(PpReplyView::Completed).1 == PpRequestView::Done(
                PpResultView::Finished(input_file),
            )
        }),
{
}

/// A directive at the end of the input is executed: no line has to follow
/// its last line.
pub proof fn lemma_directive_at_end_is_executed(s: PpView, d: DirectiveView)
    requires
        s.waiting == Waiting::Line,
        s.cur_directive == Some(d),
    ensures
        s.handle(PpReplyView::Line(None)) == (PpView {
            cur_directive: None,
            execute_tail_line: None,
            ..s
        }).execute(d),
{
}

/// A directive that can go over several lines is refused where nothing
/// stands before its sentinel: the file fails with a directive error that
/// names the file and the line. Only cleaning goes on.
pub proof fn lemma_multi_line_needs_prefix(s: PpView, line: Seq<char>)
    requires
        s.waiting == Waiting::Line,
        s.cur_directive is None,
        s.mode != Mode::Clean,
        spec_detect(line) is Some,
        spec_detect(line)->0.directive_type.spec_supports_multi_line(),
        spec_detect(line)->0.prefix.len() == 0,
    ensures
        s.step(PpReplyView::Line(Some(line))).1 == PpRequestView::Failed(
            PpErrorView {
                kind: PpErrorKind::Directive,
                file: s.input_path,
                line: next_line_number(s.cur_line) as nat,
            },
        ),
{
}

/// What a temp directive writes when building is what it removes when
/// cleaning: the file that its first argument names. Where it writes none,
/// it removes none.
pub proof fn lemma_clean_removes_what_build_writes(s: PpView, d: DirectiveView)
    requires
        d.directive_type is Temp,
        s.mode != Mode::Clean,
        s.pp_mode.is_execute(),
    ensures
        match s.execute(d).1 {
            PpOutcomeView::Request(PpRequestView::WriteTemp(path, _)) => (PpView {
                mode: Mode::Clean,
                ..s
            }).execute(d).1 == PpOutcomeView::Request(PpRequestView::RemoveTemp(path)),
            _ => match (PpView { mode: Mode::Clean, ..s }).execute(d).1 {
                PpOutcomeView::Request(PpRequestView::RemoveTemp(_)) => false,
                _ => true,
            },
        },
{
}

/// While dependencies are collected nothing is executed and nothing is
/// written: a directive that is complete only makes the machine go on.
pub proof fn lemma_collecting_executes_nothing(s: PpView, d: DirectiveView)
    requires
        s.pp_mode is CollectDeps,
        s.mode != Mode::Clean,
        !(d.directive_type is Include),
    ensures
        s.execute(d) == s.advance(),
{
}

/// The same state and outcome in another mode.
pub open spec fn in_mode(x: (PpView, PpOutcomeView), mode: Mode) -> (PpView, PpOutcomeView) {
    (PpView { mode, ..x.0 }, x.1)
}

/// A directive is executed in the same way in every mode but cleaning.
proof fn lemma_modes_execute_the_same(s: PpView, mode: Mode, d: DirectiveView)
    requires
        s.mode != Mode::Clean,
        mode != Mode::Clean,
    ensures
        (PpView { mode, ..s }).execute(d) == in_mode(s.execute(d), mode),
        (PpView { mode, ..s }).run_directive(d) == in_mode(s.run_directive(d), mode),
{
}

/// A line is treated in the same way in every mode but cleaning.
proof fn lemma_modes_process_the_same(s: PpView, mode: Mode, line: Option<Seq<char>>)
    requires
        s.mode != Mode::Clean,
        mode != Mode::Clean,
    ensures
        (PpView { mode, ..s }).process(line) == in_mode(s.process(line), mode),
{
    match spec_iterate(s.cur_directive, line) {
        IterOutcome::Execute(d, tail) => {
            lemma_modes_execute_the_same(
                PpView { cur_directive: None, execute_tail_line: tail, ..s },
                mode,
                d,
            );
        },
        _ => {},
    }
}

/// A reply is taken in the same way in every mode but cleaning.
proof fn lemma_modes_handle_the_same(s: PpView, mode: Mode, reply: PpReplyView)
    requires
        s.mode != Mode::Clean,
        mode != Mode::Clean,
    ensures
        (PpView { mode, ..s }).handle(reply) == in_mode(s.handle(reply), mode),
{
    match reply {
        PpReplyView::Line(l) => {
            lemma_modes_process_the_same(
                PpView {
                    cur_line: if l is Some {
                        next_line_number(s.cur_line)
                    } else {
                        s.cur_line
                    },
                    ..s
                },
                mode,
                l,
            );
        },
        PpReplyView::Dependency(found) => {
            if s.pending is Some {
                lemma_modes_execute_the_same(s, mode, s.pending->0);
            }
        },
        _ => {},
    }
}

/// Verifying asks for what building asks for: the mode changes nothing
/// of what a machine does, unless it is cleaning. So the text that is
/// compared when verifying is the text that is written when building,
/// where the lines, the commands and the files give the same.
pub proof fn lemma_modes_write_the_same(s: PpView, mode: Mode, reply: PpReplyView)
    requires
        s.mode != Mode::Clean,
        mode != Mode::Clean,
    ensures
        (PpView { mode, ..s }).step(reply).1 == s.step(reply).1,
        (PpView { mode, ..s }).step(reply).0 == (PpView { mode, ..s.step(reply).0 }),
{
    lemma_modes_handle_the_same(s, mode, reply);
    let first = s.handle(reply);
    if first.1 is Continue {
        lemma_modes_process_the_same(
            PpView { execute_tail_line: None, ..first.0 },
            mode,
            first.0.execute_tail_line,
        );
    }
}

/// The texts that are asked to be written, in their order.
pub open spec fn written(requests: Seq<PpRequestView>) -> Seq<Seq<char>>
    decreases requests.len(),
{
    if requests.len() == 0 {
        Seq::empty()
    } else {
        let before = written(requests.drop_last());
        match requests.last() {
            PpRequestView::Write(text) => before.push(text),
            _ => before,
        }
    }
}

impl PpView {
    /// One step of the machine, which is [`PpView::step`].
    #[verifier::opaque]
    pub open spec fn next(self, reply: PpReplyView) -> (PpView, PpRequestView) {
        self.step(reply)
    }

    /// The state of the machine after it was given the replies, one after the other.
    pub open spec fn after(self, replies: Seq<PpReplyView>) -> PpView
        decreases replies.len(),
    {
        if replies.len() == 0 {
            self
        } else {
            self.after(replies.drop_last()).next(replies.last()).0
        }
    }

    /// What the machine asks for when it is given the replies, one after the other.
    pub open spec fn requests(self, replies: Seq<PpReplyView>) -> Seq<PpRequestView>
        decreases replies.len(),
    {
        if replies.len() == 0 {
            Seq::empty()
        } else {
            self.requests(replies.drop_last()).push(
                self.after(replies.drop_last()).next(replies.last()).1,
            )
        }
    }
}

/// One step is the same in every mode but cleaning.
proof fn lemma_modes_step_the_same(s: PpView, mode: Mode, reply: PpReplyView)
    requires
        s.mode != Mode::Clean,
        mode != Mode::Clean,
    ensures
        (PpView { mode, ..s }).next(reply).1 == s.next(reply).1,
        (PpView { mode, ..s }).next(reply).0 == (PpView { mode, ..s.next(reply).0 }),
        s.next(reply).0.mode == s.mode,
{
    reveal(PpView::next);
    lemma_modes_write_the_same(s, mode, reply);
    lemma_modes_write_the_same(s, s.mode, reply);
}

/// Over a whole file, verifying asks for what building asks for, where
/// the lines, the commands and the files give the same.
pub proof fn lemma_modes_ask_the_same(s: PpView, mode: Mode, replies: Seq<PpReplyView>)
    requires
        s.mode != Mode::Clean,
        mode != Mode::Clean,
    ensures
        (PpView { mode, ..s }).requests(replies) == s.requests(replies),
        (PpView { mode, ..s }).after(replies) == (PpView { mode, ..s.after(replies) }),
        s.after(replies).mode == s.mode,
    decreases replies.len(),
{
    if replies.len() > 0 {
        lemma_modes_ask_the_same(s, mode, replies.drop_last());
        lemma_modes_step_the_same(s.after(replies.drop_last()), mode, replies.last());
    }
}

/// Build followed by verify succeeds, for one file: where the output
/// file holds the texts that were written when building, and the lines,
/// the commands and the files give the same again, each text that is
/// written when verifying is what the file holds next, and nothing is left
/// of the file when the last was compared.
pub proof fn lemma_verify_follows_build(s: PpView, replies: Seq<PpReplyView>)
    requires
        s.mode == Mode::Build || s.mode == Mode::InMemoryBuild,
    ensures
        ({
            let texts = written(s.requests(replies));
            let file = built(encoded(texts));
            let verifying = (PpView { mode: Mode::Verify, ..s }).requests(replies);
            &&& verifying == s.requests(replies)
            &&& CtxOutView::open(Mode::Verify, Some(file)) == Some(
                CtxOutView::Verify { expected: file, rem: file.len() },
            )
            &&& (CtxOutView::Verify { expected: file, rem: file.len() }).write_all(
                written(verifying),
            ) == Some(CtxOutView::Verify { expected: file, rem: 0 })
        }),
{
    lemma_modes_ask_the_same(s, Mode::Verify, replies);
    let texts = written(s.requests(replies));
    lemma_verify_after_build(built(encoded(texts)), texts);
}

} // verus!
