//! What is done next in a run: which files are preprocessed and which
//! directories are scanned, and when a run is over.
//!
//! The scheduler does no work itself. It is told what came of each task
//! and answers with the tasks that are to be started.
use crate::dependency::{
    has_edge, has_key, holds_path, ins_of, position, DepGraph, DepManager, EdgeList, EdgeLists,
};
use crate::error::TxtppError;
use crate::path::{abs_views, paths, paths_of, AbsPath, AbsPathView, Directory};
use crate::pp::PpResult;
use vstd::prelude::*;

verus! {

/// Task to be performed by a worker
#[derive(Debug)]
pub enum Task {
    /// Scan directory and return list of txtpp files and directories
    ScanDir(AbsPath),
    /// Preprocess file and return result. The flag says whether this is
    /// the first pass over the file.
    Preprocess(AbsPath, bool),
}

/// A [`Task`] as plain values.
pub enum TaskView {
    ScanDir(AbsPathView),
    Preprocess(AbsPathView, bool),
}

impl View for Task {
    type V = TaskView;

    open spec fn view(&self) -> TaskView {
        match self {
            Task::ScanDir(p) => TaskView::ScanDir(p@),
            Task::Preprocess(p, first) => TaskView::Preprocess(p@, *first),
        }
    }
}

/// Each task as plain values.
pub open spec fn task_views(v: Seq<Task>) -> Seq<TaskView> {
    Seq::new(v.len(), |i: int| v[i]@)
}

/// What a worker gives back. Of a task that failed only that it did is told here.
#[derive(Debug)]
pub enum TaskResult {
    /// A directory was scanned.
    ScanDir(Option<Directory>),
    /// A file was preprocessed.
    Preprocess(Option<PpResult>),
}

/// The absolute paths of the files that are scheduled for their first
/// pass, and the tasks for it: one for each file whose path was not
/// scheduled before, in the order of the files.
pub open spec fn first_pass(scheduled: Set<Seq<char>>, files: Seq<AbsPathView>) -> (
    Set<Seq<char>>,
    Seq<TaskView>,
)
    decreases files.len(),
{
    if files.len() == 0 {
        (scheduled, Seq::empty())
    } else {
        let before = first_pass(scheduled, files.drop_last());
        if before.0.contains(files.last().path) {
            before
        } else {
            (
                before.0.insert(files.last().path),
                before.1.push(TaskView::Preprocess(files.last(), true)),
            )
        }
    }
}

/// A task for the second pass over each file.
pub open spec fn second_pass(files: Seq<AbsPathView>) -> Seq<TaskView> {
    Seq::new(files.len(), |i: int| TaskView::Preprocess(files[i], false))
}

/// A task to scan each directory.
pub open spec fn scans(dirs: Seq<AbsPathView>) -> Seq<TaskView> {
    Seq::new(dirs.len(), |i: int| TaskView::ScanDir(dirs[i]))
}

/// The state of a run as plain values.
pub struct SchedulerView {
    /// Whether the directories that a scan finds are scanned too.
    pub recursive: bool,
    /// The absolute paths of the files that were scheduled for their first pass.
    pub scheduled: Set<Seq<char>>,
    pub graph: DepGraph,
    /// How many tasks were started.
    pub total: nat,
    /// How many tasks came back.
    pub done: nat,
    /// How many files are done.
    pub file_count: nat,
    /// Whether the run has failed.
    pub has_error: bool,
}

impl SchedulerView {
    /// The state and the tasks that are to be started when a run begins
    /// with these files and directories: each file gets its first pass,
    /// and each directory is scanned.
    pub open spec fn begin(self, files: Seq<AbsPathView>, subdirs: Seq<AbsPathView>) -> (
        SchedulerView,
        Seq<TaskView>,
    ) {
        let fp = first_pass(self.scheduled, files);
        (SchedulerView { scheduled: fp.0, ..self }, fp.1 + scans(subdirs))
    }

    /// The state and the tasks that are to be started when a scan has
    /// found these files and directories: each file gets its first pass,
    /// and each directory is scanned if the run is recursive.
    pub open spec fn scanned(self, files: Seq<AbsPathView>, subdirs: Seq<AbsPathView>) -> (
        SchedulerView,
        Seq<TaskView>,
    ) {
        let fp = first_pass(self.scheduled, files);
        (
            SchedulerView { scheduled: fp.0, done: self.done + 1, ..self },
            fp.1 + if self.recursive {
                scans(subdirs)
            } else {
                Seq::empty()
            },
        )
    }

    /// The state and the tasks that are to be started when a file was
    /// found to have dependencies: it waits for those that are not
    /// finished, and each of them gets its first pass. Where all of them
    /// are finished the file gets its second pass at once.
    pub open spec fn found_deps(self, input: AbsPathView, deps: Seq<AbsPathView>) -> (
        SchedulerView,
        Seq<TaskView>,
    ) {
        let graph = self.graph.add_dependency(input.path, paths_of(deps));
        if self.graph.has_unfinished(paths_of(deps)) {
            let fp = first_pass(self.scheduled, deps);
            (SchedulerView { scheduled: fp.0, graph, done: self.done + 1, ..self }, fp.1)
        } else {
            (
                SchedulerView { graph, done: self.done + 1, ..self },
                seq![TaskView::Preprocess(input, false)],
            )
        }
    }

    /// Whether the list holds, each once, the files that are released when
    /// `input` is finished.
    pub open spec fn releases(self, input: Seq<char>, released: Seq<AbsPathView>) -> bool {
        &&& paths_of(released).no_duplicates()
        &&& forall|a: Seq<char>|
            paths_of(released).contains(a) <==> self.graph.released_by(input, a)
    }

    /// The state and the tasks that are to be started when a file is
    /// done: each file that is released gets its second pass.
    pub open spec fn finished(self, input: Seq<char>, released: Seq<AbsPathView>) -> (
        SchedulerView,
        Seq<TaskView>,
    ) {
        (
            SchedulerView {
                graph: self.graph.notify_finish(input),
                done: self.done + 1,
                file_count: self.file_count + 1,
                ..self
            },
            second_pass(released),
        )
    }

    /// The state when a task has failed.
    pub open spec fn failed(self) -> SchedulerView {
        SchedulerView { done: self.done + 1, has_error: true, ..self }
    }
}

/// Whether `r` and `after` are what comes of starting the tasks `next.1`
/// in the state `next.0`: the tasks are handed out and counted as
/// started. Where their number goes beyond what can be counted the run
/// has failed instead.
pub open spec fn started(
    next: (SchedulerView, Seq<TaskView>),
    after: SchedulerView,
    r: Result<Vec<Task>, TxtppError>,
) -> bool {
    match r {
        Ok(tasks) => task_views(tasks@) == next.1 && next.0.total + next.1.len() <= usize::MAX
            && after == (SchedulerView { total: next.0.total + next.1.len(), ..next.0 }),
        Err(_) => next.0.total + next.1.len() > usize::MAX && after == (SchedulerView {
            has_error: true,
            ..next.0
        }),
    }
}

/// The state of a run.
pub struct Scheduler {
    recursive: bool,
    /// Files in the build system
    ///
    /// This is to track we don't unnecessarily process the same file twice in the first pass
    files: Vec<AbsPath>,
    dep_mgr: DepManager,
    total_count: usize,
    done_count: usize,
    file_count: usize,
    has_error: bool,
}

impl View for Scheduler {
    type V = SchedulerView;

    closed spec fn view(&self) -> SchedulerView {
        SchedulerView {
            recursive: self.recursive,
            scheduled: Set::new(|p: Seq<char>| paths(self.files@).contains(p)),
            graph: self.dep_mgr@,
            total: self.total_count as nat,
            done: self.done_count as nat,
            file_count: self.file_count as nat,
            has_error: self.has_error,
        }
    }
}

/// Why a run that came to its end has failed all the same.
#[derive(Debug)]
pub enum RunError {
    /// A task has failed.
    Failed,
    /// Files wait for each other. The edges that are left are given: each
    /// file that still waits, with the files that it waits for.
    CircularDependency(Vec<EdgeList>),
}

impl Scheduler {
    /// The dependency graph is well formed, and no more files are done
    /// than tasks came back.
    pub closed spec fn wf(&self) -> bool {
        self.dep_mgr.wf() && self.file_count <= self.done_count
    }

    /// Whether the dependency graph holds each of the paths, with its base.
    pub open spec fn holds_all(&self, files: Seq<AbsPathView>) -> bool {
        forall|i: int| 0 <= i < files.len() ==> self.held().contains(#[trigger] files[i])
    }

    /// The paths that the dependency graph holds, each with its base.
    /// What is handed out of the graph is one of these.
    pub closed spec fn held(&self) -> Set<AbsPathView> {
        self.dep_mgr.held()
    }

    /// The state of a run before anything is scheduled.
    pub fn new(recursive: bool) -> (s: Self)
        ensures
            s.wf(),
            s@ == (SchedulerView {
                recursive,
                scheduled: Set::empty(),
                graph: DepGraph { edges: Set::empty(), finished: Set::empty() },
                total: 0,
                done: 0,
                file_count: 0,
                has_error: false,
            }),
            s.held() == Set::<AbsPathView>::empty(),
    {
        let s = Self {
            recursive,
            files: Vec::new(),
            dep_mgr: DepManager::new(),
            total_count: 0,
            done_count: 0,
            file_count: 0,
            has_error: false,
        };
        assert(s@.scheduled =~= Set::empty());
        s
    }

    /// Whether every task that was started has come back.
    pub fn is_done(&self) -> (b: bool)
        ensures
            b == (self@.done == self@.total),
    {
        self.done_count == self.total_count
    }

    /// Whether the run has failed.
    pub fn has_error(&self) -> (b: bool)
        ensures
            b == self@.has_error,
    {
        self.has_error
    }

    /// How many tasks were started.
    pub fn total_count(&self) -> (n: usize)
        ensures
            n == self@.total,
    {
        self.total_count
    }

    /// How many tasks came back.
    pub fn done_count(&self) -> (n: usize)
        ensures
            n == self@.done,
    {
        self.done_count
    }

    /// How many files are done.
    pub fn file_count(&self) -> (n: usize)
        ensures
            n == self@.file_count,
    {
        self.file_count
    }

    /// Add the tasks for the first pass over the files that were not
    /// scheduled before.
    fn execute_files(&mut self, files: &Vec<AbsPath>, tasks: &mut Vec<Task>)
        requires
            old(self).wf(),
        ensures
            final(self).wf(),
            final(self)@ == (SchedulerView {
                scheduled: first_pass(old(self)@.scheduled, abs_views(files@)).0,
                ..old(self)@
            }),
            task_views(final(tasks)@) == task_views(old(tasks)@) + first_pass(
                old(self)@.scheduled,
                abs_views(files@),
            ).1,
            final(self).held() == old(self).held(),
    {
        let ghost start = self@;
        let ghost tasks0 = task_views(tasks@);
        let ghost all = abs_views(files@);
        let mut i: usize = 0;
        assert(tasks0 + first_pass(start.scheduled, all.take(0)).1 =~= tasks0);
        assert(self@.scheduled =~= first_pass(start.scheduled, all.take(0)).0);
        while i < files.len()
            invariant
                i <= files.len(),
                all == abs_views(files@),
                self.held() == old(self).held(),
                self.wf(),
                self@ == (SchedulerView {
                    scheduled: first_pass(start.scheduled, all.take(i as int)).0,
                    ..start
                }),
                task_views(tasks@) == tasks0 + first_pass(start.scheduled, all.take(i as int)).1,
            decreases files.len() - i,
        {
            let file = &files[i];
            let ghost sofar = all.take(i as int);
            let ghost next = all.take(i + 1);
            let ghost known = paths(self.files@);
            let ghost before = task_views(tasks@);
            proof {
                assert(next.drop_last() =~= sofar);
                assert(next.last() == file@);
            }
            // There could be duplicate inputs for multiple reasons:
            // 1. The user specified the same input multiple times.
            // 2. The input is both specified by user and discovered as dependency
            // Therefore, we need to prevent processing the same file multiple times in the first pass.
            let seen = position(&self.files, file);
            if seen.is_none() {
                self.files.push(file.clone());
                tasks.push(Task::Preprocess(file.clone(), true));
                proof {
                    assert(paths(self.files@) =~= known.push(file.path()));
                    assert forall|p: Seq<char>|
                        paths(self.files@).contains(p) <==> known.contains(p) || p
                            == file.path() by {
                        if known.contains(p) {
                            let k = choose|k: int| 0 <= k < known.len() && known[k] == p;
                            assert(paths(self.files@)[k] == p);
                        }
                        if p == file.path() {
                            assert(paths(self.files@)[known.len() as int] == p);
                        }
                    }
                    assert(self@.scheduled =~= first_pass(start.scheduled, next).0);
                    assert(task_views(tasks@) =~= before.push(
                        TaskView::Preprocess(file@, true),
                    ));
                    assert(task_views(tasks@) =~= tasks0 + first_pass(start.scheduled, next).1);
                }
            } else {
                proof {
                    assert(known[seen->0 as int] == file.path());
                    assert(known.contains(file.path()));
                }
            }
            i += 1;
        }
        assert(all.take(files.len() as int) =~= all);
    }

    /// Count the tasks as started, and hand them out. The run fails where
    /// their number goes beyond what can be counted.
    fn commit(&mut self, tasks: Vec<Task>) -> (r: Result<Vec<Task>, TxtppError>)
        requires
            old(self).wf(),
        ensures
            final(self).wf(),
            match r {
                Ok(t) => t == tasks && old(self)@.total + tasks@.len() <= usize::MAX && final(self)@
                    == (SchedulerView {
                    total: old(self)@.total + tasks@.len(),
                    ..old(self)@
                }),
                Err(_) => old(self)@.total + tasks@.len() > usize::MAX && final(self)@ == (
                SchedulerView { has_error: true, ..old(self)@ }),
            },
            final(self).held() == old(self).held(),
    {
        if tasks.len() > usize::MAX - self.total_count {
            self.has_error = true;
            return Err(TxtppError);
        }
        self.total_count = self.total_count + tasks.len();
        Ok(tasks)
    }

    /// Add a task to scan each directory.
    fn execute_directories(dirs: &Vec<AbsPath>, tasks: &mut Vec<Task>)
        ensures
            task_views(final(tasks)@) == task_views(old(tasks)@) + scans(abs_views(dirs@)),
    {
        let ghost tasks0 = task_views(tasks@);
        let mut i: usize = 0;
        assert(tasks0 + scans(abs_views(dirs@).take(0)) =~= tasks0);
        while i < dirs.len()
            invariant
                i <= dirs.len(),
                task_views(tasks@) == tasks0 + scans(abs_views(dirs@).take(i as int)),
            decreases dirs.len() - i,
        {
            let ghost before = task_views(tasks@);
            tasks.push(Task::ScanDir(dirs[i].clone()));
            proof {
                assert(task_views(tasks@) =~= before.push(TaskView::ScanDir(dirs@[i as int]@)));
                assert(scans(abs_views(dirs@).take(i + 1)) =~= scans(abs_views(dirs@).take(i as int)).push(
                    TaskView::ScanDir(dirs@[i as int]@),
                ));
                assert(task_views(tasks@) =~= tasks0 + scans(abs_views(dirs@).take(i + 1)));
            }
            i += 1;
        }
        assert(abs_views(dirs@).take(dirs.len() as int) =~= abs_views(dirs@));
    }

    /// Begin a run with the files and directories that were asked for: each
    /// file gets its first pass, and each directory is scanned.
    pub fn start(&mut self, inputs: &Directory) -> (r: Result<Vec<Task>, TxtppError>)
        requires
            old(self).wf(),
        ensures
            final(self).wf(),
            started(
                old(self)@.begin(abs_views(inputs.files@), abs_views(inputs.subdirs@)),
                final(self)@,
                r,
            ),
            final(self).held() == old(self).held(),
    {
        let mut tasks: Vec<Task> = Vec::new();
        assert(task_views(tasks@) =~= Seq::empty());
        // schedule input files
        self.execute_files(&inputs.files, &mut tasks);
        // schedule input directories
        Self::execute_directories(&inputs.subdirs, &mut tasks);
        assert(task_views(tasks@) =~= old(self)@.begin(
            abs_views(inputs.files@),
            abs_views(inputs.subdirs@),
        ).1);
        self.commit(tasks)
    }

    /// A task has failed: the run has failed.
    pub fn on_failure(&mut self) -> (e: TxtppError)
        requires
            old(self).wf(),
            old(self)@.done < old(self)@.total,
        ensures
            final(self).wf(),
            final(self)@ == old(self)@.failed(),
            final(self).held() == old(self).held(),
    {
        self.done_count = self.done_count + 1;
        self.has_error = true;
        TxtppError
    }

    /// A directory was scanned: each file that was found gets its first
    /// pass, and each directory is scanned if the run is recursive.
    pub fn on_scan(&mut self, directory: &Directory) -> (r: Result<Vec<Task>, TxtppError>)
        requires
            old(self).wf(),
            old(self)@.done < old(self)@.total,
        ensures
            final(self).wf(),
            started(
                old(self)@.scanned(abs_views(directory.files@), abs_views(directory.subdirs@)),
                final(self)@,
                r,
            ),
            final(self).held() == old(self).held(),
    {
        self.done_count = self.done_count + 1;
        let mut tasks: Vec<Task> = Vec::new();
        assert(task_views(tasks@) =~= Seq::empty());
        self.execute_files(&directory.files, &mut tasks);
        if self.recursive {
            Self::execute_directories(&directory.subdirs, &mut tasks);
        }
        assert(task_views(tasks@) =~= old(self)@.scanned(
            abs_views(directory.files@),
            abs_views(directory.subdirs@),
        ).1);
        self.commit(tasks)
    }

    /// A file has dependencies: it waits for those that are not finished,
    /// and each of them gets its first pass. Where all of them are finished
    /// by now the file gets its second pass at once.
    pub fn on_has_deps(&mut self, input: AbsPath, deps: &Vec<AbsPath>) -> (r: Result<
        Vec<Task>,
        TxtppError,
    >)
        requires
            old(self).wf(),
            old(self)@.done < old(self)@.total,
        ensures
            final(self).wf(),
            started(old(self)@.found_deps(input@, abs_views(deps@)), final(self)@, r),
            forall|x: AbsPathView|
                final(self).held().contains(x) ==> old(self).held().contains(x) || x == input@
                    || abs_views(deps@).contains(x),
    {
        self.done_count = self.done_count + 1;
        let mut tasks: Vec<Task> = Vec::new();
        assert(task_views(tasks@) =~= Seq::empty());
        assert(paths_of(abs_views(deps@)) =~= paths(deps@));
        if self.dep_mgr.add_dependency(&input, deps.as_slice()) {
            // schedule the dependencies
            self.execute_files(deps, &mut tasks);
            proof {
                let fp = first_pass(old(self)@.scheduled, abs_views(deps@));
                assert(task_views(tasks@) =~= fp.1);
            }
        } else {
            // the dependencies are already done, schedule the file again
            tasks.push(Task::Preprocess(input, false));
            assert(task_views(tasks@) =~= seq![TaskView::Preprocess(input@, false)]);
        }
        self.commit(tasks)
    }

    /// A file is done: each file that waited for it and for nothing else
    /// gets its second pass.
    pub fn on_finished(&mut self, input: &AbsPath) -> (r: Result<Vec<Task>, TxtppError>)
        requires
            old(self).wf(),
            old(self)@.done < old(self)@.total,
        ensures
            final(self).wf(),
            exists|released: Seq<AbsPathView>|
                old(self)@.releases(input.path(), released) && old(self).holds_all(released)
                    && #[trigger] started(
                    old(self)@.finished(input.path(), released),
                    final(self)@,
                    r,
                ),
            forall|x: AbsPathView| final(self).held().contains(x) ==> old(self).held().contains(x),
    {
        self.done_count = self.done_count + 1;
        self.file_count = self.file_count + 1;
        let files = self.dep_mgr.notify_finish(input);
        let ghost released = abs_views(files@);
        let mut tasks: Vec<Task> = Vec::new();
        let mut i: usize = 0;
        assert(task_views(tasks@) =~= second_pass(released.take(0)));
        while i < files.len()
            invariant
                i <= files.len(),
                released == abs_views(files@),
                task_views(tasks@) == second_pass(released.take(i as int)),
            decreases files.len() - i,
        {
            let ghost before = task_views(tasks@);
            tasks.push(Task::Preprocess(files[i].clone(), false));
            proof {
                assert(task_views(tasks@) =~= before.push(
                    TaskView::Preprocess(files@[i as int]@, false),
                ));
                assert(task_views(tasks@) =~= second_pass(released.take(i + 1)));
            }
            i += 1;
        }
        assert(released.take(files.len() as int) =~= released);
        let r = self.commit(tasks);
        assert(paths_of(released) =~= paths(files@));
        assert(old(self)@.releases(input.path(), released));
        assert(old(self).holds_all(released));
        assert(started(old(self)@.finished(input.path(), released), self@, r));
        r
    }

    /// What came of a task.
    pub fn on_result(&mut self, result: TaskResult) -> (r: Result<Vec<Task>, TxtppError>)
        requires
            old(self).wf(),
            old(self)@.done < old(self)@.total,
        ensures
            final(self).wf(),
            match result {
                TaskResult::ScanDir(Some(directory)) => started(
                    old(self)@.scanned(abs_views(directory.files@), abs_views(directory.subdirs@)),
                    final(self)@,
                    r,
                ),
                TaskResult::Preprocess(Some(PpResult::HasDeps(input, deps))) => started(
                    old(self)@.found_deps(input@, abs_views(deps@)),
                    final(self)@,
                    r,
                ),
                TaskResult::Preprocess(Some(PpResult::Finished(input))) => exists|
                    released: Seq<AbsPathView>,
                |
                    old(self)@.releases(input.path(), released) && old(self).holds_all(released)
                        && #[trigger] started(
                        old(self)@.finished(input.path(), released),
                        final(self)@,
                        r,
                    ),
                _ => r is Err && final(self)@ == old(self)@.failed(),
            },
            forall|x: AbsPathView|
                final(self).held().contains(x) ==> old(self).held().contains(x) || (
                result matches TaskResult::Preprocess(Some(PpResult::HasDeps(input, deps)))
                    && (x == input@ || abs_views(deps@).contains(x))),
    {
        match result {
            TaskResult::ScanDir(Some(directory)) => self.on_scan(&directory),
            TaskResult::Preprocess(Some(PpResult::HasDeps(input, deps))) => self.on_has_deps(
                input,
                &deps,
            ),
            TaskResult::Preprocess(Some(PpResult::Finished(input))) => self.on_finished(&input),
            _ => Err(self.on_failure()),
        }
    }

    /// The end of a run: it has succeeded unless a task has failed, or files
    /// are left that wait for each other. On success the number of files
    /// that are done is given.
    pub fn finish(self) -> (r: Result<usize, RunError>)
        requires
            self.wf(),
        ensures
            match r {
                Ok(n) => !self@.has_error && self@.graph.edges == Set::<
                    (Seq<char>, Seq<char>),
                >::empty() && n == self@.file_count,
                Err(RunError::Failed) => self@.has_error,
                Err(RunError::CircularDependency(remaining)) => !self@.has_error
                    && self@.graph.edges != Set::<(Seq<char>, Seq<char>)>::empty() && (forall|
                    a: Seq<char>,
                    b: Seq<char>,
                | #[trigger]
                    has_edge(ins_of(remaining@), b, a) <==> self@.graph.edges.contains((a, b)))
                    && forall|x: AbsPathView|
                    holds_path(remaining@, x) ==> self.held().contains(x),
            },
    {
        if self.has_error {
            return Err(RunError::Failed);
        }
        let file_count = self.file_count;
        // make sure all dependencies are processed
        let remaining = self.dep_mgr.take_remaining();
        if remaining.len() > 0 {
            return Err(RunError::CircularDependency(remaining));
        }
        Ok(file_count)
    }
}

/// Files that wait for each other are reported at the end of a run: each
/// of them stands in what is left of the graph.
pub proof fn lemma_cycle_is_reported(
    g: DepGraph,
    cycle: Set<Seq<char>>,
    remaining: EdgeLists,
)
    requires
        g.closed_under_waiting(cycle),
        forall|a: Seq<char>, b: Seq<char>| #[trigger]
            has_edge(remaining, b, a) <==> g.edges.contains((a, b)),
    ensures
        forall|a: Seq<char>| cycle.contains(a) ==> has_key(remaining, a),
{
    assert forall|a: Seq<char>| cycle.contains(a) implies has_key(remaining, a) by {
        assert(g.waits_in(cycle, a));
        let b = choose|b: Seq<char>| cycle.contains(b) && #[trigger] g.edges.contains((a, b));
        assert(has_edge(remaining, b, a));
    }
}

/// No file gets its first pass twice: the tasks for a first pass are
/// for files that were handed in and whose paths were not scheduled before,
/// no two of them for one path, and the paths of all the files are
/// scheduled afterwards, beside those that were.
pub proof fn lemma_first_pass_is_once(scheduled: Set<Seq<char>>, files: Seq<AbsPathView>)
    ensures
        forall|i: int|
            0 <= i < first_pass(scheduled, files).1.len() ==> (#[trigger] first_pass(
                scheduled,
                files,
            ).1[i]) is Preprocess && first_pass(scheduled, files).1[i]->Preprocess_1
                && files.contains(first_pass(scheduled, files).1[i]->Preprocess_0)
                && !scheduled.contains(first_pass(scheduled, files).1[i]->Preprocess_0.path),
        forall|i: int, j: int|
            0 <= i < j < first_pass(scheduled, files).1.len() ==> (#[trigger] first_pass(
                scheduled,
                files,
            ).1[i])->Preprocess_0.path != (#[trigger] first_pass(
                scheduled,
                files,
            ).1[j])->Preprocess_0.path,
        forall|p: Seq<char>|
            first_pass(scheduled, files).0.contains(p) <==> scheduled.contains(p) || paths_of(
                files,
            ).contains(p),
        forall|i: int|
            0 <= i < first_pass(scheduled, files).1.len() ==> first_pass(scheduled, files).0.contains(
                (#[trigger] first_pass(scheduled, files).1[i])->Preprocess_0.path,
            ),
    decreases files.len(),
{
    if files.len() > 0 {
        let init = files.drop_last();
        let last = files.last();
        let before = first_pass(scheduled, init);
        let after = first_pass(scheduled, files);
        lemma_first_pass_is_once(scheduled, init);
        assert forall|x: AbsPathView| init.contains(x) implies files.contains(x) by {
            let k = choose|k: int| 0 <= k < init.len() && init[k] == x;
            assert(files[k] == x);
        }
        assert(files.contains(last)) by {
            assert(files[files.len() - 1] == last);
        }
        assert forall|p: Seq<char>|
            paths_of(files).contains(p) <==> paths_of(init).contains(p) || p == last.path by {
            if paths_of(files).contains(p) {
                let k = choose|k: int| 0 <= k < files.len() && paths_of(files)[k] == p;
                if k < init.len() {
                    assert(paths_of(init)[k] == p);
                }
            }
            if paths_of(init).contains(p) {
                let k = choose|k: int| 0 <= k < init.len() && paths_of(init)[k] == p;
                assert(paths_of(files)[k] == p);
            }
            if p == last.path {
                assert(paths_of(files)[files.len() - 1] == p);
            }
        }
        assert forall|i: int| 0 <= i < after.1.len() implies (#[trigger] after.1[i]) is Preprocess
            && after.1[i]->Preprocess_1 && files.contains(after.1[i]->Preprocess_0)
            && !scheduled.contains(after.1[i]->Preprocess_0.path) && after.0.contains(
            after.1[i]->Preprocess_0.path,
        ) by {
            if i < before.1.len() {
                assert(after.1[i] == before.1[i]);
            }
        }
        assert forall|i: int, j: int| 0 <= i < j < after.1.len() implies (#[trigger] after.1[i])->Preprocess_0.path
            != (#[trigger] after.1[j])->Preprocess_0.path by {
            assert(after.1[i] == before.1[i]);
            if j < before.1.len() {
                assert(after.1[j] == before.1[j]);
            } else {
                assert(before.0.contains(before.1[i]->Preprocess_0.path));
            }
        }
    }
}

/// Files that wait for each other never get their second pass: while
/// files outside of such a set are done, none of the set is released, and
/// they go on waiting for each other. So the run ends with a graph that
/// is not empty, which is reported as a circular dependency.
pub proof fn lemma_cycle_gets_no_second_pass(
    s: SchedulerView,
    cycle: Set<Seq<char>>,
    input: Seq<char>,
    released: Seq<AbsPathView>,
)
    requires
        s.graph.closed_under_waiting(cycle),
        !cycle.contains(input),
        s.releases(input, released),
    ensures
        s.finished(input, released).0.graph.closed_under_waiting(cycle),
        forall|i: int| 0 <= i < released.len() ==> !cycle.contains((#[trigger] released[i]).path),
        forall|a: Seq<char>|
            cycle.contains(a) ==> s.graph.edges != Set::<(Seq<char>, Seq<char>)>::empty(),
{
    crate::dependency::lemma_cycle_is_never_released(s.graph, cycle, input);
    assert forall|i: int| 0 <= i < released.len() implies !cycle.contains(
        (#[trigger] released[i]).path,
    ) by {
        assert(paths_of(released)[i] == released[i].path);
        assert(paths_of(released).contains(released[i].path));
    }
    assert forall|a: Seq<char>| cycle.contains(a) implies s.graph.edges != Set::<
        (Seq<char>, Seq<char>),
    >::empty() by {
        assert(s.graph.waits_in(cycle, a));
        let b = choose|b: Seq<char>| cycle.contains(b) && #[trigger] s.graph.edges.contains((a, b));
        assert(s.graph.edges.contains((a, b)));
    }
}

/// Dependencies that are found release nothing: files that wait for each
/// other still do afterwards.
pub proof fn lemma_cycle_survives_found_deps(
    s: SchedulerView,
    cycle: Set<Seq<char>>,
    input: AbsPathView,
    deps: Seq<AbsPathView>,
)
    requires
        s.graph.closed_under_waiting(cycle),
    ensures
        s.found_deps(input, deps).0.graph.closed_under_waiting(cycle),
{
    crate::dependency::lemma_cycle_survives_add(s.graph, cycle, input.path, paths_of(deps));
}

} // verus!
