use txtpp::dependency::print_dep_map;
use txtpp::path::{AbsPath, Directory};
use txtpp::pp::PpResult;
use txtpp::scheduler::{RunError, Scheduler, Task, TaskResult};

fn path(p: &str) -> AbsPath {
    AbsPath::new(p.to_string())
}

fn directory(files: &[&str], subdirs: &[&str]) -> Directory {
    let mut d = Directory::new();
    d.files = files.iter().map(|f| path(f)).collect();
    d.subdirs = subdirs.iter().map(|f| path(f)).collect();
    d
}

/// The tasks as text: `scan P`, `first P` or `second P`.
fn shown(tasks: Vec<Task>) -> Vec<String> {
    tasks
        .iter()
        .map(|t| match t {
            Task::ScanDir(p) => format!("scan {}", p.as_path()),
            Task::Preprocess(p, true) => format!("first {}", p.as_path()),
            Task::Preprocess(p, false) => format!("second {}", p.as_path()),
        })
        .collect()
}

#[test]
fn inputs_are_scheduled_once() {
    let mut s = Scheduler::new(false);
    let tasks = s.start(&directory(&["/a.txtpp", "/b.txtpp", "/a.txtpp"], &["/d", "/d"])).unwrap();
    assert_eq!(
        vec!["first /a.txtpp", "first /b.txtpp", "scan /d", "scan /d"],
        shown(tasks)
    );
    assert_eq!(4, s.total_count());
    assert_eq!(0, s.done_count());
    assert!(!s.is_done());
}

#[test]
fn scan_schedules_files_and_directories_if_recursive() {
    let mut s = Scheduler::new(true);
    s.start(&directory(&["/a.txtpp"], &["/d"])).unwrap();
    let tasks = s.on_scan(&directory(&["/d/x.txtpp", "/a.txtpp"], &["/d/e"])).unwrap();
    assert_eq!(vec!["first /d/x.txtpp", "scan /d/e"], shown(tasks));
    assert_eq!(4, s.total_count());
    assert_eq!(1, s.done_count());

    let mut s = Scheduler::new(false);
    s.start(&directory(&[], &["/d"])).unwrap();
    let tasks = s.on_scan(&directory(&["/d/x.txtpp"], &["/d/e"])).unwrap();
    assert_eq!(vec!["first /d/x.txtpp"], shown(tasks));
    assert_eq!(2, s.total_count());
}

#[test]
fn include_with_dependency() {
    let mut s = Scheduler::new(false);
    let tasks = s.start(&directory(&["/a.txt.txtpp"], &[])).unwrap();
    assert_eq!(vec!["first /a.txt.txtpp"], shown(tasks));
    // the first pass over a finds that it includes what b gives
    let tasks = s.on_has_deps(path("/a.txt.txtpp"), &vec![path("/b.txt.txtpp")]).unwrap();
    assert_eq!(vec!["first /b.txt.txtpp"], shown(tasks));
    assert!(!s.is_done());
    // b is done: a gets its second pass
    let tasks = s.on_finished(&path("/b.txt.txtpp")).unwrap();
    assert_eq!(vec!["second /a.txt.txtpp"], shown(tasks));
    let tasks = s.on_finished(&path("/a.txt.txtpp")).unwrap();
    assert!(tasks.is_empty());
    assert!(s.is_done());
    assert_eq!(3, s.total_count());
    assert_eq!(Ok(2), s.finish().map_err(|_| ()));
}

#[test]
fn dependency_that_is_done_already() {
    let mut s = Scheduler::new(false);
    s.start(&directory(&["/a.txtpp", "/b.txtpp"], &[])).unwrap();
    assert!(s.on_finished(&path("/b.txtpp")).unwrap().is_empty());
    let tasks = s.on_has_deps(path("/a.txtpp"), &vec![path("/b.txtpp")]).unwrap();
    assert_eq!(vec!["second /a.txtpp"], shown(tasks));
    assert!(s.on_finished(&path("/a.txtpp")).unwrap().is_empty());
    assert!(s.is_done());
    assert!(s.finish().is_ok());
}

#[test]
fn dependency_that_is_scheduled_already_is_not_scheduled_again() {
    let mut s = Scheduler::new(false);
    s.start(&directory(&["/a.txtpp", "/b.txtpp"], &[])).unwrap();
    let tasks = s
        .on_has_deps(path("/a.txtpp"), &vec![path("/b.txtpp"), path("/c.txtpp")])
        .unwrap();
    assert_eq!(vec!["first /c.txtpp"], shown(tasks));
    assert!(s.on_finished(&path("/b.txtpp")).unwrap().is_empty());
    let tasks = s.on_finished(&path("/c.txtpp")).unwrap();
    assert_eq!(vec!["second /a.txtpp"], shown(tasks));
}

#[test]
fn cycle_detection() {
    let mut s = Scheduler::new(false);
    s.start(&directory(&["/a.txt.txtpp"], &[])).unwrap();
    let tasks = s.on_has_deps(path("/a.txt.txtpp"), &vec![path("/b.txt.txtpp")]).unwrap();
    assert_eq!(vec!["first /b.txt.txtpp"], shown(tasks));
    let tasks = s.on_has_deps(path("/b.txt.txtpp"), &vec![path("/a.txt.txtpp")]).unwrap();
    assert!(tasks.is_empty());
    assert!(s.is_done());
    match s.finish() {
        Err(RunError::CircularDependency(remaining)) => {
            let mut edges: Vec<(String, Vec<String>)> = remaining
                .iter()
                .map(|l| {
                    (
                        l.vertex.as_path().to_string(),
                        l.others.iter().map(|o| o.as_path().to_string()).collect(),
                    )
                })
                .collect();
            edges.sort();
            assert_eq!(
                vec![
                    ("/a.txt.txtpp".to_string(), vec!["/b.txt.txtpp".to_string()]),
                    ("/b.txt.txtpp".to_string(), vec!["/a.txt.txtpp".to_string()]),
                ],
                edges
            );
            let report = print_dep_map(&remaining);
            assert!(report.contains("/a.txt.txtpp\n╰╴/b.txt.txtpp\n\n"));
            assert!(report.contains("/b.txt.txtpp\n╰╴/a.txt.txtpp\n\n"));
        }
        other => panic!("{other:?}"),
    }
}

#[test]
fn file_that_includes_itself() {
    let mut s = Scheduler::new(false);
    s.start(&directory(&["/a.txtpp"], &[])).unwrap();
    let tasks = s.on_has_deps(path("/a.txtpp"), &vec![path("/a.txtpp")]).unwrap();
    assert!(tasks.is_empty());
    assert!(s.is_done());
    assert!(matches!(s.finish(), Err(RunError::CircularDependency(r)) if r.len() == 1));
}

#[test]
fn failed_task_fails_the_run() {
    let mut s = Scheduler::new(false);
    s.start(&directory(&["/a.txtpp", "/b.txtpp"], &[])).unwrap();
    assert!(s.on_result(TaskResult::Preprocess(None)).is_err());
    assert!(s.has_error());
    assert_eq!(1, s.done_count());
    assert!(matches!(s.finish(), Err(RunError::Failed)));

    let mut s = Scheduler::new(false);
    s.start(&directory(&[], &["/d"])).unwrap();
    assert!(s.on_result(TaskResult::ScanDir(None)).is_err());
    assert!(s.has_error());
}

#[test]
fn results_are_counted_once_each() {
    let mut s = Scheduler::new(true);
    s.start(&directory(&["/a.txtpp"], &["/d"])).unwrap();
    let tasks = s
        .on_result(TaskResult::ScanDir(Some(directory(&["/d/b.txtpp"], &[]))))
        .unwrap();
    assert_eq!(vec!["first /d/b.txtpp"], shown(tasks));
    let tasks = s
        .on_result(TaskResult::Preprocess(Some(PpResult::HasDeps(
            path("/a.txtpp"),
            vec![path("/d/b.txtpp")],
        ))))
        .unwrap();
    assert!(tasks.is_empty());
    let tasks = s
        .on_result(TaskResult::Preprocess(Some(PpResult::Finished(path("/d/b.txtpp")))))
        .unwrap();
    assert_eq!(vec!["second /a.txtpp"], shown(tasks));
    assert_eq!((3, 4, 1), (s.done_count(), s.total_count(), s.file_count()));
    s.on_result(TaskResult::Preprocess(Some(PpResult::Finished(path("/a.txtpp")))))
        .unwrap();
    assert!(s.is_done());
    assert_eq!(2, s.file_count());
}

#[test]
fn tasks_keep_the_base_of_the_paths() {
    let base = AbsPath::new("/work".to_string());
    let at = |p: &str| base.share_base(p, Some(format!("/work/{p}"))).unwrap();
    let shown = |tasks: &[Task]| -> Vec<String> {
        tasks
            .iter()
            .map(|t| match t {
                Task::ScanDir(p) | Task::Preprocess(p, _) => {
                    format!("{} in {}", p.to_string(), p.base_path())
                }
            })
            .collect()
    };
    let mut inputs = Directory::new();
    inputs.files = vec![at("a.txtpp")];
    inputs.subdirs = vec![at("d")];
    let mut s = Scheduler::new(false);
    assert_eq!(vec!["a.txtpp in /work", "d in /work"], shown(&s.start(&inputs).unwrap()));
    let tasks = s.on_has_deps(at("a.txtpp"), &vec![at("d/b.txtpp")]).unwrap();
    assert_eq!(vec!["d/b.txtpp in /work"], shown(&tasks));
    // the file that is done is named on another base: what is released keeps its own
    let tasks = s.on_finished(&AbsPath::new("/work/d/b.txtpp".to_string())).unwrap();
    assert_eq!(vec!["a.txtpp in /work"], shown(&tasks));
}
