use std::path::Path;
use txtpp::config::{Config, Mode, Verbosity};
use txtpp::dependency::{print_dep_map, DepManager, EdgeList};
use txtpp::error::{decimal, PathError, PpError, PpErrorKind, ShellError, TxtppError};
use txtpp::inputs::{resolve_inputs, scan_dir, InputProbe, PathProbe};
use txtpp::path::{
    has_no_separator, normalize_path, path_string_from_base, AbsPath, TxtppPath,
};
use txtpp::shell::Shell;
use txtpp::tag_state::{TagState, TagStateError};

fn probe(path: &str, is_file: bool, is_dir: bool, canonical: Option<&str>) -> PathProbe {
    PathProbe {
        path: path.to_string(),
        is_file,
        is_dir,
        canonical: canonical.map(|c| c.to_string()),
    }
}

fn names(paths: &[AbsPath]) -> Vec<&str> {
    paths.iter().map(|p| p.as_path()).collect()
}

#[test]
fn default_config() {
    let c = Config::default();
    assert_eq!(".", c.base_dir);
    assert_eq!("", c.shell_cmd);
    assert_eq!(vec![".".to_string()], c.inputs);
    assert!(!c.recursive);
    assert_eq!(4, c.num_threads);
    assert_eq!(Mode::Build, c.mode);
    assert_eq!(Verbosity::Normal, c.verbosity);
    assert!(c.trailing_newline);
}

#[test]
fn verbs_of_the_modes() {
    assert_eq!("Processing", Mode::Build.processing_verb());
    assert_eq!("Processing", Mode::InMemoryBuild.processing_verb());
    assert_eq!("Cleaning", Mode::Clean.processing_verb());
    assert_eq!("Verifying", Mode::Verify.processing_verb());
    assert_eq!("Processed", Mode::Build.processed_verb());
    assert_eq!("Cleaned", Mode::Clean.processed_verb());
    assert_eq!("Verified", Mode::Verify.processed_verb());
}

#[test]
fn error_messages() {
    let e = PpError { kind: PpErrorKind::Directive, file: "a/b.txtpp".to_string(), line: 120 };
    assert_eq!("Error executing directive at `a/b.txtpp`:120", e.message());
    let e = PpError { kind: PpErrorKind::VerifyOutput, file: "x".to_string(), line: 0 };
    assert_eq!("Output file not verified at `x`:0", e.message());
    for (kind, text) in [
        (PpErrorKind::OpenFile, "Could not open file"),
        (PpErrorKind::ReadFile, "Could not read file"),
        (PpErrorKind::WriteFile, "Could not write file"),
        (PpErrorKind::DeleteFile, "Could not remove file"),
        (PpErrorKind::Other, "Internal error"),
    ] {
        let e = PpError { kind, file: "f".to_string(), line: 7 };
        assert_eq!(format!("{text} at `f`:7"), e.message());
    }
    assert_eq!(
        "Error in path `/x/y`",
        PathError { path: "/x/y".to_string() }.message()
    );
    assert_eq!("Tag state is invalid", TagStateError.message());
    assert_eq!("Error resolving shell executable", ShellError::ResolveError.message());
    assert_eq!("Error executing shell", ShellError::ExecuteError.message());
    assert_eq!(
        "Txtpp was unsuccessful! There might be error traces below.",
        TxtppError.message()
    );
}

#[test]
fn decimal_digits() {
    assert_eq!("0", decimal(0));
    assert_eq!("9", decimal(9));
    assert_eq!("10", decimal(10));
    assert_eq!("4096", decimal(4096));
    assert_eq!(usize::MAX.to_string(), decimal(usize::MAX));
}

#[test]
fn shell_from_a_command() {
    let shell = Shell::new("bash  -c -e", Some("/usr/bin/bash".to_string())).unwrap();
    assert_eq!("/usr/bin/bash", shell.exe());
    assert_eq!(&vec!["-c".to_string(), "-e".to_string()], shell.args());
    assert_eq!("/usr/bin/bash -c -e", shell.to_string());
    let shell = Shell::new("sh", Some("/bin/sh".to_string())).unwrap();
    assert!(shell.args().is_empty());
    assert_eq!("/bin/sh ", shell.to_string());
    assert_eq!(Some(ShellError::ResolveError), Shell::new("sh -c", None).err());
    assert_eq!(
        Some(ShellError::ResolveError),
        Shell::new("  ", Some("/bin/sh".to_string())).err()
    );
    assert_eq!(Some("pwsh".to_string()), Shell::executable(" pwsh -Command"));
    assert_eq!(None, Shell::executable(""));
}

#[test]
fn templates_of_a_file() {
    assert_eq!(
        vec!["dir/foo.bar.txtpp".to_string(), "dir/foo.txtpp.bar".to_string()],
        "dir/foo.bar".txtpp_candidates()
    );
    assert_eq!(vec!["foo.txtpp".to_string()], "foo".txtpp_candidates());
    assert!("foo.txtpp".txtpp_candidates().is_empty());
    assert!("foo.txtpp.bar".txtpp_candidates().is_empty());
    assert_eq!(
        vec!["a.b.c.txtpp".to_string(), "a.b.txtpp.c".to_string()],
        "a.b.c".txtpp_candidates()
    );
}

#[test]
fn output_of_a_template() {
    assert_eq!("a/b/name", "a/b/name.txtpp".remove_txtpp().unwrap());
    assert_eq!("a.b/name.ext", "a.b/name.txtpp.ext".remove_txtpp().unwrap());
    assert_eq!("a.txtpp/name", "a.txtpp/name".remove_txtpp().unwrap_err().path);
    assert!(!"a.txtpp/name".is_txtpp_file());
    assert!(!"a.txtpp.b/c".is_txtpp_file());
    assert!(!".txtpp".is_txtpp_file());
    assert!("x.txtpp.txtpp".is_txtpp_file());
    assert!(!"x.txtpp.a.b".is_txtpp_file());
}

#[test]
fn separators_of_paths() {
    assert!(has_no_separator("abc.txtpp"));
    assert!(has_no_separator(""));
    assert!(!has_no_separator("a/b"));
}

#[test]
fn parent_and_resolved_paths() {
    let base = AbsPath::create_base("work", Some("/home/me/work".to_string())).unwrap();
    assert_eq!("/home/me/work", base.as_path());
    assert_eq!("/home/me/work", base.base_path());
    assert_eq!("work", AbsPath::create_base("work", None).unwrap_err().path);
    let file = base.share_base("a/b.txtpp", Some("/home/me/work/a/b.txtpp".to_string())).unwrap();
    assert_eq!("/home/me/work/a/b.txtpp", file.as_path());
    assert_eq!("/home/me/work", file.base_path());
    assert_eq!("gone", base.share_base("gone", None).unwrap_err().path);
    let dir = file.parent().unwrap();
    assert_eq!("/home/me/work/a", dir.as_path());
    assert_eq!("/home/me/work", dir.base_path());
    assert_eq!("/", AbsPath::new("/".to_string()).parent().unwrap_err().path);
    assert_eq!("/home/me/work/a/c.txt", dir.resolve("c.txt"));
    assert_eq!("/etc/c.txt", dir.resolve("/etc/c.txt"));
    let c = dir.try_resolve("c.txt", Some("/home/me/work/a/c.txt".to_string())).unwrap();
    assert_eq!("/home/me/work/a/c.txt", c.as_path());
    assert_eq!("/home/me/work", c.base_path());
    assert_eq!(
        "/home/me/work/a/c.txt",
        dir.try_resolve("c.txt", None).unwrap_err().path
    );
    assert_eq!("/home/me/work/a/b.txtpp", file.as_path_buf());
    assert_eq!("/home/me/work/a/b.txtpp", file.clone().into_path_buf());
    assert!(file == file.clone());
    assert!(file != dir);
    assert!(base == AbsPath::new("/home/me/work".to_string()));
}

#[test]
fn paths_as_they_are_shown() {
    assert_eq!("a/b.txt", path_string_from_base("/work", "/work/a/b.txt"));
    assert_eq!("/work", path_string_from_base("/work", "/work"));
    assert_eq!("/other/b.txt", path_string_from_base("/work", "/other/b.txt"));
    assert_eq!("/workshop/b", path_string_from_base("/work", "/workshop/b"));
    let base = AbsPath::new("/work".to_string());
    let file = base.share_base("x", Some("/work/a/b.c.txtpp".to_string())).unwrap();
    assert_eq!("a/b.c.txtpp", file.to_string());
    assert_eq!("a/b.c", file.trim_txtpp().unwrap());
    assert_eq!("/work", base.to_string());
    assert_eq!("/work", base.trim_txtpp().unwrap_err().path);
    assert_eq!("/a/b", normalize_path("/a/b"));
    assert_eq!("", normalize_path(""));
}

#[test]
fn scanned_directory() {
    let dir = AbsPath::new("/work".to_string());
    let entries = vec![
        probe("/work/a.txtpp", true, false, Some("/work/a.txtpp")),
        probe("/work/a", true, false, Some("/work/a")),
        probe("/work/sub", false, true, Some("/work/sub")),
        probe("/work/b.txtpp.md", true, false, Some("/real/b.txtpp.md")),
        probe("/work/dir.txtpp", false, true, Some("/work/dir.txtpp")),
        probe("/work/neither.txtpp", false, false, None),
    ];
    let d = scan_dir(&dir, true, &entries).unwrap();
    assert_eq!(vec!["/work/a.txtpp", "/real/b.txtpp.md"], names(&d.files));
    assert_eq!(vec!["/work/sub", "/work/dir.txtpp"], names(&d.subdirs));
    assert!(d.files.iter().chain(d.subdirs.iter()).all(|p| p.base_path() == "/work"));
    let d = scan_dir(&dir, false, &entries).unwrap();
    assert_eq!(vec!["/work/a.txtpp", "/real/b.txtpp.md"], names(&d.files));
    assert!(d.subdirs.is_empty());
}

#[test]
fn scanned_directory_with_an_entry_that_is_gone() {
    let dir = AbsPath::new("/work".to_string());
    let entries = vec![
        probe("/work/a.txtpp", true, false, Some("/work/a.txtpp")),
        probe("/work/b.txtpp", true, false, None),
        probe("/work/c.txtpp", true, false, None),
    ];
    assert_eq!("/work/b.txtpp", scan_dir(&dir, true, &entries).unwrap_err().path);
    let entries = vec![probe("/work/sub", false, true, None)];
    assert_eq!("/work/sub", scan_dir(&dir, true, &entries).unwrap_err().path);
    assert!(scan_dir(&dir, false, &entries).unwrap().subdirs.is_empty());
}

#[test]
fn resolved_inputs() {
    let base = AbsPath::new("/work".to_string());
    let inputs = vec![
        InputProbe { input: probe("/work/.", false, true, Some("/work")), template: None },
        InputProbe {
            input: probe("/work/a.txt.txtpp", true, false, Some("/work/a.txt.txtpp")),
            template: None,
        },
        InputProbe {
            input: probe("/work/b.txt", false, false, None),
            template: Some(probe("/work/b.txtpp.txt", true, false, Some("/work/b.txtpp.txt"))),
        },
        InputProbe {
            input: probe("/work/c.txt", true, false, Some("/work/c.txt")),
            template: Some(probe("/work/c.txt.txtpp", true, false, Some("/work/c.txt.txtpp"))),
        },
    ];
    let d = resolve_inputs(&inputs, &base).unwrap();
    assert_eq!(
        vec!["/work/a.txt.txtpp", "/work/b.txtpp.txt", "/work/c.txt.txtpp"],
        names(&d.files)
    );
    assert_eq!(vec!["/work"], names(&d.subdirs));
}

#[test]
fn input_that_cannot_be_resolved() {
    let base = AbsPath::new("/work".to_string());
    // neither the file nor its template exists
    let inputs = vec![InputProbe { input: probe("/work/a.txt", false, false, None), template: None }];
    assert_eq!("/work/a.txt", resolve_inputs(&inputs, &base).unwrap_err().path);
    // a template has to exist
    let inputs = vec![InputProbe { input: probe("/work/a.txtpp", false, false, None), template: None }];
    assert_eq!("/work/a.txtpp", resolve_inputs(&inputs, &base).unwrap_err().path);
    // the file exists, but it is no template and has none
    let inputs = vec![
        InputProbe { input: probe("/work/ok.txtpp", true, false, Some("/work/ok.txtpp")), template: None },
        InputProbe { input: probe("/work/a.txt", true, false, Some("/work/a.txt")), template: None },
    ];
    assert_eq!("/work/a.txt", resolve_inputs(&inputs, &base).unwrap_err().path);
}

#[test]
fn dependency_map_as_it_is_reported() {
    let base = AbsPath::new("/work".to_string());
    let at = |p: &str| base.share_base(p, Some(format!("/work/{p}"))).unwrap();
    let map = vec![
        EdgeList { vertex: at("a.txtpp"), others: vec![at("b.txtpp"), at("c/d.txtpp"), at("e.txtpp")] },
        EdgeList { vertex: at("f.txtpp"), others: vec![at("a.txtpp")] },
        EdgeList { vertex: at("g.txtpp"), others: vec![] },
    ];
    assert_eq!(
        "a.txtpp\n├╴b.txtpp\n├╴c/d.txtpp\n╰╴e.txtpp\n\nf.txtpp\n╰╴a.txtpp\n\ng.txtpp\n\n",
        print_dep_map(&map)
    );
    assert_eq!("", print_dep_map(&vec![]));
}

#[test]
fn edge_that_is_named_twice_is_counted_once() {
    let a = AbsPath::new("/a".to_string());
    let b = AbsPath::new("/b".to_string());
    let c = AbsPath::new("/c".to_string());
    let mut dm = DepManager::new();
    assert!(dm.add_dependency(&a, &[b.clone(), b.clone(), c.clone()]));
    assert!(dm.add_dependency(&a, &[b.clone()]));
    assert!(dm.notify_finish(&b).is_empty());
    let free = dm.notify_finish(&c);
    assert_eq!(vec!["/a"], names(&free));
    assert!(dm.take_remaining().is_empty());
}

#[test]
fn paths_are_told_apart_by_the_absolute_path_only() {
    let base = AbsPath::new("/work".to_string());
    let a1 = AbsPath::new("/work/a".to_string());
    let a2 = base.share_base("a", Some("/work/a".to_string())).unwrap();
    let b = AbsPath::new("/work/b".to_string());
    let mut dm = DepManager::new();
    assert!(dm.add_dependency(&b, &[a1]));
    assert_eq!(vec!["/work/b"], names(&dm.notify_finish(&a2)));
}

#[test]
fn tag_names_stay_apart() {
    let mut tags = TagState::new();
    assert!(!tags.has_tags());
    tags.create("ab").unwrap();
    assert!(tags.has_tags());
    tags.try_store("1").unwrap();
    assert!(tags.create("a").is_err());
    assert!(tags.create("abc").is_err());
    assert!(tags.create("ab").is_err());
    assert_eq!(None, tags.listening());
    tags.create("b").unwrap();
    tags.try_store("2").unwrap();
    assert_eq!(Some("1".to_string()), tags.stored_get("ab"));
    assert_eq!(Some("2".to_string()), tags.stored_get("b"));
    assert_eq!(None, tags.stored_get("a"));
    // the earlier place wins: the first `b` lies in the name that is replaced,
    // so that tag is passed over and stays stored
    assert_eq!("x1bb\n", tags.inject_tags("xabbb", "\n"));
    assert_eq!(1, tags.stored_len());
    assert_eq!("xa2bb\n", tags.inject_tags("xabbb", "\n"));
    assert!(!tags.has_tags());
    assert_eq!("xabbb\n", tags.inject_tags("xabbb", "\n"));
}

#[test]
fn tag_whose_first_place_is_taken_stays_stored() {
    let mut tags = TagState::new();
    tags.create("abc").unwrap();
    tags.try_store("1").unwrap();
    tags.create("cd").unwrap();
    tags.try_store("2").unwrap();
    assert_eq!("1d cd\n", tags.inject_tags("abcd cd", "\n"));
    assert_eq!(1, tags.stored_len());
    assert_eq!("2\n", tags.inject_tags("cd", "\n"));
    assert_eq!(0, tags.stored_len());
}

#[test]
fn extension_of_a_name_is_what_the_standard_library_says() {
    for name in [
        "foo", "foo.bar", "foo.", ".foo", ".foo.bar", "...", "a.b.c", "foo.txtpp", "a..b", "x.y.", "..a",
    ] {
        let path = Path::new(name);
        assert_eq!(
            path.extension().map(|e| e.to_str().unwrap().to_string()),
            txtpp::path::name_extension(name),
            "{name}"
        );
        assert_eq!(
            path.file_stem().map(|e| e.to_str().unwrap()),
            Some(txtpp::path::name_stem(name)),
            "{name}"
        );
    }
}

#[test]
fn name_of_a_template() {
    for name in ["a.txtpp", "a.b.txtpp", "a.txtpp.b", "a.txtpp.txtpp", ".a.txtpp", "a.b.txtpp.c"] {
        assert!(txtpp::path::is_txtpp_name(name), "{name}");
    }
    for name in ["", "a", "txtpp", ".txtpp", "a.txtpp.b.c", "a.txtppx", "a.TXTPP", "a.txtpp/b"] {
        assert!(!txtpp::path::is_txtpp_name(name), "{name}");
    }
}

#[test]
fn only_the_txtpp_extension_is_dropped() {
    assert_eq!("d/a.b.c", "d/a.b.txtpp.c".remove_txtpp().unwrap());
    assert_eq!("d/a.b.c", "d/a.b.c.txtpp".remove_txtpp().unwrap());
    assert_eq!("a.txtpp", "a.txtpp.txtpp".remove_txtpp().unwrap());
    assert_eq!(".a", ".a.txtpp".remove_txtpp().unwrap());
    assert_eq!("..", "..".remove_txtpp().unwrap_err().path);
    assert!("..txtpp".remove_txtpp().is_ok());
    assert!("..txtpp.x".remove_txtpp().is_ok());
    assert!("..".txtpp_candidates().is_empty());
}

#[test]
fn new_extension_of_a_path_is_what_is_said_of_its_name() {
    let paths = [
        "a/b.c", "a/b", "a/.b", "a/b.", "a.d/b.c.e", "b.c/", "a/b.c/", "x.txtpp", "/r/x.y.txtpp",
        "a/..", "/", "", "..", ".", "..txtpp", "a/..x", "...", "a/....", "..a.b", "a..b", "d/.a.",
    ];
    for p in paths {
        for ext in ["", "e", "txtpp", "e.txtpp", "txtpp.e"] {
            let changed = Path::new(p).with_extension(ext);
            match Path::new(p).file_name().map(|n| n.to_str().unwrap()) {
                // nothing is said where the stem stands for a directory
                Some(name) if [".", ".."].contains(&txtpp::path::name_stem(name)) => {
                    if ext.is_empty() {
                        assert_eq!(None, changed.file_name(), "{p}");
                    }
                }
                Some(name) => {
                    let mut expected = txtpp::path::name_stem(name).to_string();
                    if !ext.is_empty() {
                        expected.push('.');
                        expected.push_str(ext);
                    }
                    assert_eq!(
                        Some(expected.as_str()),
                        changed.file_name().map(|n| n.to_str().unwrap()),
                        "{p} {ext}"
                    );
                }
                None => assert_eq!(Some(p), changed.to_str(), "{p} {ext}"),
            }
        }
    }
}
