use std::collections::HashMap;
use txtpp::config::Mode;
use txtpp::error::PpErrorKind;
use txtpp::path::AbsPath;
use txtpp::pp::{Pp, PpReply, PpRequest, PpResult, Waiting};

/// What stands for the file system and the shell while a machine is driven.
struct World {
    /// The lines of the input that are not read yet, the next one last.
    lines: Vec<String>,
    /// What each command prints.
    commands: HashMap<String, String>,
    /// What each file holds.
    files: HashMap<String, String>,
    /// The template of each file that has one.
    templates: HashMap<String, String>,
    /// The output so far.
    output: String,
    /// The temp files that were written.
    temps: Vec<(String, String)>,
    /// The temp files that were removed.
    removed: Vec<String>,
    /// The commands that were run.
    ran: Vec<String>,
    /// Whether the output was finished.
    finished: bool,
}

impl World {
    fn new(input: &[&str]) -> Self {
        Self {
            lines: input.iter().rev().map(|l| l.to_string()).collect(),
            commands: HashMap::new(),
            files: HashMap::new(),
            templates: HashMap::new(),
            output: String::new(),
            temps: vec![],
            removed: vec![],
            ran: vec![],
            finished: false,
        }
    }

    /// Do what is asked for. `Err` holds the request that ends the run.
    fn perform(&mut self, request: PpRequest) -> Result<PpReply, PpRequest> {
        Ok(match request {
            PpRequest::NextLine => PpReply::Line(self.lines.pop()),
            PpRequest::FindDependency(path) => {
                PpReply::Dependency(self.templates.get(&path).map(|t| AbsPath::new(t.clone())))
            }
            PpRequest::Run(command) => {
                self.ran.push(command.clone());
                match self.commands.get(&command) {
                    Some(out) => PpReply::Output(out.clone()),
                    None => PpReply::Failed(PpErrorKind::Other),
                }
            }
            PpRequest::ReadInclude(path) => match self.files.get(&path) {
                Some(content) => PpReply::Output(content.clone()),
                None => PpReply::Failed(PpErrorKind::ReadFile),
            },
            PpRequest::WriteTemp(path, contents) => {
                self.temps.push((path, contents));
                PpReply::Completed
            }
            PpRequest::RemoveTemp(path) => {
                self.removed.push(path);
                PpReply::Completed
            }
            PpRequest::Write(text) => {
                assert!(!self.finished);
                self.output.push_str(&text);
                PpReply::Completed
            }
            PpRequest::Finish => {
                assert!(!self.finished);
                self.finished = true;
                PpReply::Completed
            }
            last => return Err(last),
        })
    }

    /// Drive a machine to its end.
    fn run(&mut self, pp: &mut Pp) -> PpRequest {
        let mut request = PpRequest::NextLine;
        loop {
            match self.perform(request) {
                Ok(reply) => request = pp.step(reply),
                Err(last) => return last,
            }
        }
    }
}

fn machine(mode: Mode, is_first_pass: bool, trailing_newline: bool) -> Pp {
    let input = AbsPath::new("/work/a.txt.txtpp".to_string());
    Pp::new(&input, "a.txt.txtpp", mode, is_first_pass, trailing_newline, "\n")
}

fn finished(request: &PpRequest) -> bool {
    matches!(request, PpRequest::Done(PpResult::Finished(p)) if p.as_path() == "/work/a.txt.txtpp")
}

fn failed_with(request: &PpRequest, kind: PpErrorKind, line: usize) -> bool {
    match request {
        PpRequest::Failed(e) => e.kind == kind && e.line == line && e.file == "a.txt.txtpp",
        _ => false,
    }
}

#[test]
fn empty_input_gives_empty_output() {
    for mode in [Mode::Build, Mode::InMemoryBuild, Mode::Verify, Mode::Clean] {
        for first in [true, false] {
            let mut world = World::new(&[]);
            let mut pp = machine(mode, first, true);
            let last = world.run(&mut pp);
            assert!(finished(&last));
            assert!(world.finished);
            assert_eq!("", world.output);
            assert_eq!(Waiting::Over, pp.waiting());
        }
    }
}

#[test]
fn content_is_passed_through_line_by_line() {
    let mut world = World::new(&["a", "", "  b  "]);
    let mut pp = machine(Mode::Build, false, true);
    assert!(finished(&world.run(&mut pp)));
    assert_eq!("a\n\n  b  \n", world.output);
}

#[test]
fn run_directive_output_is_written() {
    let mut world = World::new(&["-- TXTPP#run echo hello"]);
    world.commands.insert("echo hello".to_string(), "hello\n".to_string());
    let mut pp = machine(Mode::Build, false, false);
    assert!(finished(&world.run(&mut pp)));
    assert_eq!("hello\n", world.output);
    assert_eq!(vec!["echo hello".to_string()], world.ran);
}

#[test]
fn run_directive_at_end_gets_the_trailing_newline() {
    let mut world = World::new(&["-- TXTPP#run echo hello"]);
    world.commands.insert("echo hello".to_string(), "hello\n".to_string());
    let mut pp = machine(Mode::Build, false, true);
    assert!(finished(&world.run(&mut pp)));
    assert_eq!("hello\n\n", world.output);

    let mut world = World::new(&["-- TXTPP#run printf hello"]);
    world.commands.insert("printf hello".to_string(), "hello".to_string());
    let mut pp = machine(Mode::Build, false, true);
    assert!(finished(&world.run(&mut pp)));
    assert_eq!("hello\n", world.output);

    let mut world = World::new(&["-- TXTPP#run printf hello"]);
    world.commands.insert("printf hello".to_string(), "hello".to_string());
    let mut pp = machine(Mode::Build, false, false);
    assert!(finished(&world.run(&mut pp)));
    assert_eq!("hello", world.output);
}

#[test]
fn run_directive_in_the_middle() {
    let mut world = World::new(&["before", "  # TXTPP#run ls", "after"]);
    world.commands.insert("ls".to_string(), "x\r\ny\n".to_string());
    let mut pp = machine(Mode::Build, false, true);
    assert!(finished(&world.run(&mut pp)));
    assert_eq!("before\n  x\n  y\nafter\n", world.output);
}

#[test]
fn run_directive_over_several_lines() {
    let mut world = World::new(&["// TXTPP#run echo \\", "//   hello", "//", "end"]);
    world.commands.insert("echo \\   hello ".to_string(), "hello\n".to_string());
    let mut pp = machine(Mode::Build, false, true);
    assert!(finished(&world.run(&mut pp)));
    assert_eq!(vec!["echo \\   hello ".to_string()], world.ran);
    assert_eq!("hello\nend\n", world.output);
}

#[test]
fn failing_command_is_a_directive_error() {
    let mut world = World::new(&["x", "-- TXTPP#run false", "y"]);
    let mut pp = machine(Mode::Build, false, true);
    let last = world.run(&mut pp);
    assert!(failed_with(&last, PpErrorKind::Directive, 3));
    assert_eq!("x\n", world.output);
}

#[test]
fn multi_line_directive_without_prefix_is_rejected() {
    for line in ["TXTPP#run echo hello", "  TXTPP#", "TXTPP#temp a", "\tTXTPP#write"] {
        let mut world = World::new(&["first", line, "last"]);
        let mut pp = machine(Mode::Build, false, true);
        let last = world.run(&mut pp);
        assert!(failed_with(&last, PpErrorKind::Directive, 2));
        assert_eq!("first\n", world.output);
        assert!(world.ran.is_empty());
    }
}

#[test]
fn directive_at_end_of_input_is_executed() {
    let mut world = World::new(&["// TXTPP#write", "// abc", "//   def"]);
    let mut pp = machine(Mode::Build, false, true);
    assert!(finished(&world.run(&mut pp)));
    assert_eq!("abc\n  def\n", world.output);

    let mut world = World::new(&["//TXTPP#temp out.txt", "//one", "//two"]);
    let mut pp = machine(Mode::Build, false, true);
    assert!(finished(&world.run(&mut pp)));
    assert_eq!(vec![("out.txt".to_string(), "one\ntwo".to_string())], world.temps);
    assert_eq!("", world.output);
}

#[test]
fn write_directive_drops_its_first_argument() {
    let mut world = World::new(&["    # TXTPP#write ignored", "    # kept", "tail"]);
    let mut pp = machine(Mode::Build, false, true);
    assert!(finished(&world.run(&mut pp)));
    assert_eq!("    kepttail\n", world.output);
}

#[test]
fn include_and_tag_take_one_line_only() {
    let mut world = World::new(&["# TXTPP#include b.txt", "# not an argument"]);
    world.files.insert("b.txt".to_string(), "hello\n".to_string());
    let mut pp = machine(Mode::Build, false, true);
    assert!(finished(&world.run(&mut pp)));
    assert_eq!("hello\n# not an argument\n", world.output);

    let mut world = World::new(&["# TXTPP#tag T", "# T", "-- TXTPP#run c", "T"]);
    world.commands.insert("c".to_string(), "X".to_string());
    let mut pp = machine(Mode::Build, false, true);
    let last = world.run(&mut pp);
    assert!(finished(&last));
    assert_eq!("# T\nX\n", world.output);
}

#[test]
fn include_reads_the_file_on_the_second_pass() {
    let mut world = World::new(&["TXTPP#include b.txt"]);
    world.files.insert("b.txt".to_string(), "hello\n".to_string());
    world.templates.insert("b.txt".to_string(), "/work/b.txt.txtpp".to_string());
    let mut pp = machine(Mode::Build, false, false);
    assert!(finished(&world.run(&mut pp)));
    assert_eq!("hello\n", world.output);
}

#[test]
fn include_of_a_template_output_is_a_dependency_on_the_first_pass() {
    let mut world = World::new(&[
        "one",
        "TXTPP#include b.txt",
        "-- TXTPP#run echo hello",
        "TXTPP#include plain.txt",
        "TXTPP#include c.txt",
        "two",
    ]);
    world.templates.insert("b.txt".to_string(), "/work/b.txt.txtpp".to_string());
    world.templates.insert("c.txt".to_string(), "/work/c.txtpp.txt".to_string());
    world.files.insert("plain.txt".to_string(), "plain".to_string());
    let mut pp = machine(Mode::Build, true, true);
    match world.run(&mut pp) {
        PpRequest::Done(PpResult::HasDeps(input, deps)) => {
            assert_eq!("/work/a.txt.txtpp", input.as_path());
            let deps: Vec<&str> = deps.iter().map(|d| d.as_path()).collect();
            assert_eq!(vec!["/work/b.txt.txtpp", "/work/c.txtpp.txt"], deps);
        }
        other => panic!("{other:?}"),
    }
    assert_eq!("one\n", world.output);
    assert!(world.ran.is_empty());
    // the output of a file that has dependencies is not finished
    assert!(!world.finished);
}

#[test]
fn include_without_template_is_read_on_the_first_pass() {
    let mut world = World::new(&["TXTPP#include plain.txt", "end"]);
    world.files.insert("plain.txt".to_string(), "a\nb".to_string());
    let mut pp = machine(Mode::Build, true, true);
    assert!(finished(&world.run(&mut pp)));
    assert_eq!("a\nbend\n", world.output);
}

#[test]
fn tag_is_put_in_once() {
    let mut world = World::new(&[
        "TXTPP#tag TAG1",
        "// TXTPP#run echo X",
        "prefix TAG1 suffix",
        "again TAG1",
    ]);
    world.commands.insert("echo X".to_string(), "X".to_string());
    let mut pp = machine(Mode::Build, false, true);
    assert!(finished(&world.run(&mut pp)));
    assert_eq!("prefix X suffix\nagain TAG1\n", world.output);
}

#[test]
fn tag_content_gets_the_line_ending_of_the_file() {
    let input = AbsPath::new("/work/a.txtpp".to_string());
    let mut pp = Pp::new(&input, "a.txtpp", Mode::Build, false, true, "\r\n");
    let mut world = World::new(&["TXTPP#tag <T>", "// TXTPP#run c", "a<T>b<T>"]);
    world.commands.insert("c".to_string(), "1\n2\n".to_string());
    let last = world.run(&mut pp);
    assert!(matches!(last, PpRequest::Done(PpResult::Finished(_))));
    assert_eq!("a1\r\n2\r\nb<T>\r\n", world.output);
}

#[test]
fn unused_tag_is_an_error() {
    let mut world = World::new(&["TXTPP#tag T", "// TXTPP#run c", "nothing"]);
    world.commands.insert("c".to_string(), "X".to_string());
    let mut pp = machine(Mode::Build, false, true);
    assert!(failed_with(&world.run(&mut pp), PpErrorKind::Directive, 3));
    assert!(!world.finished);

    let mut world = World::new(&["TXTPP#tag T"]);
    let mut pp = machine(Mode::Build, false, true);
    assert!(failed_with(&world.run(&mut pp), PpErrorKind::Directive, 1));
}

#[test]
fn ambiguous_tag_is_an_error() {
    let mut world = World::new(&["TXTPP#tag TAG", "// TXTPP#run c", "TXTPP#tag TAG1", "x"]);
    world.commands.insert("c".to_string(), "X".to_string());
    let mut pp = machine(Mode::Build, false, true);
    assert!(failed_with(&world.run(&mut pp), PpErrorKind::Directive, 4));
}

#[test]
fn temp_directive_writes_its_lines() {
    let mut world = World::new(&["# TXTPP#temp gen/out.sh", "# echo 1", "#", "# echo 2  ", "x"]);
    let mut pp = machine(Mode::Verify, false, true);
    assert!(finished(&world.run(&mut pp)));
    assert_eq!(
        vec![("gen/out.sh".to_string(), "echo 1\n\necho 2".to_string())],
        world.temps
    );
    assert_eq!("x\n", world.output);
}

#[test]
fn temp_directive_refuses_a_template() {
    let mut world = World::new(&["# TXTPP#temp out.txtpp", "# x"]);
    let mut pp = machine(Mode::Build, false, true);
    assert!(failed_with(&world.run(&mut pp), PpErrorKind::Directive, 2));
    assert!(world.temps.is_empty());
}

#[test]
fn cleaning_removes_temp_files_and_runs_nothing() {
    let mut world = World::new(&[
        "TXTPP#run echo bad",
        "# TXTPP#temp out.txt",
        "# x",
        "# TXTPP#temp bad.txtpp",
        "# TXTPP#run echo hello",
        "TXTPP#tag T",
        "TXTPP#include missing",
    ]);
    let mut pp = machine(Mode::Clean, true, true);
    assert!(finished(&world.run(&mut pp)));
    assert_eq!(vec!["out.txt".to_string()], world.removed);
    assert!(world.temps.is_empty());
    assert!(world.ran.is_empty());
}

#[test]
fn failure_is_reported_at_the_line_that_was_read() {
    let mut pp = machine(Mode::Build, false, true);
    assert!(matches!(pp.step(PpReply::Line(Some("a".to_string()))), PpRequest::Write(t) if t == "a\n"));
    let last = pp.step(PpReply::Failed(PpErrorKind::VerifyOutput));
    assert!(failed_with(&last, PpErrorKind::VerifyOutput, 1));
    assert_eq!(Waiting::Over, pp.waiting());
    let last = pp.step(PpReply::Completed);
    assert!(failed_with(&last, PpErrorKind::Other, 1));
}

#[test]
fn reply_that_is_not_waited_for_fails() {
    let mut pp = machine(Mode::Build, false, true);
    assert!(failed_with(&pp.step(PpReply::Completed), PpErrorKind::Other, 0));
    let mut pp = machine(Mode::Build, false, true);
    assert!(failed_with(&pp.step(PpReply::Output("x".to_string())), PpErrorKind::Other, 0));
    let mut pp = machine(Mode::Build, false, true);
    assert!(failed_with(&pp.step(PpReply::Dependency(None)), PpErrorKind::Other, 0));
}

#[test]
fn output_is_finished_after_the_last_text() {
    let mut pp = machine(Mode::Build, false, true);
    assert!(matches!(pp.step(PpReply::Line(Some("-- TXTPP#write".to_string()))), PpRequest::NextLine));
    assert!(matches!(pp.step(PpReply::Line(Some("-- a".to_string()))), PpRequest::NextLine));
    assert!(matches!(pp.step(PpReply::Line(None)), PpRequest::Write(t) if t == "a"));
    assert!(matches!(pp.step(PpReply::Completed), PpRequest::NextLine));
    assert!(matches!(pp.step(PpReply::Line(None)), PpRequest::Write(t) if t == "\n"));
    assert_eq!(Waiting::Last, pp.waiting());
    assert!(matches!(pp.step(PpReply::Completed), PpRequest::Finish));
    assert_eq!(Waiting::Finish, pp.waiting());
    assert!(finished(&pp.step(PpReply::Completed)));
}

#[test]
fn output_that_cannot_be_finished_fails_the_file() {
    let mut pp = machine(Mode::Verify, false, true);
    assert!(matches!(pp.step(PpReply::Line(None)), PpRequest::Finish));
    let last = pp.step(PpReply::Failed(PpErrorKind::VerifyOutput));
    assert!(failed_with(&last, PpErrorKind::VerifyOutput, 0));
}

#[test]
fn paths_keep_their_base() {
    let base = AbsPath::new("/work".to_string());
    let input = base.share_base("a", Some("/work/a.txtpp".to_string())).unwrap();
    let dep = base.share_base("b", Some("/work/sub/b.txtpp".to_string())).unwrap();
    let mut pp = Pp::new(&input, "a.txtpp", Mode::Build, true, true, "\n");
    assert!(matches!(pp.step(PpReply::Line(Some("TXTPP#include sub/b".to_string()))), PpRequest::NextLine));
    assert!(matches!(pp.step(PpReply::Line(None)), PpRequest::FindDependency(p) if p == "sub/b"));
    assert!(matches!(pp.step(PpReply::Dependency(Some(dep))), PpRequest::NextLine));
    match pp.step(PpReply::Line(None)) {
        PpRequest::Done(PpResult::HasDeps(input, deps)) => {
            assert_eq!(("/work", "/work/a.txtpp"), (input.base_path(), input.as_path()));
            assert_eq!(1, deps.len());
            assert_eq!(("/work", "/work/sub/b.txtpp"), (deps[0].base_path(), deps[0].as_path()));
            assert_eq!("sub/b.txtpp", deps[0].to_string());
        }
        other => panic!("{other:?}"),
    }
}
