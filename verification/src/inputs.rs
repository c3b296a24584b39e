//! Which files and directories a run begins with, and what a scan of a
//! directory gives.
//!
//! The file system is looked at by the caller. What it found of a path is
//! handed in as a probe.
use crate::error::PathError;
use crate::path::{paths, spec_is_txtpp_file, AbsPath, Directory, TxtppPath};
use crate::text::owned;
use vstd::prelude::*;

verus! {

/// What the file system says of a path.
#[derive(Debug)]
pub struct PathProbe {
    /// The path that was looked at.
    pub path: String,
    /// Whether it is a file.
    pub is_file: bool,
    /// Whether it is a directory.
    pub is_dir: bool,
    /// The path made absolute, `None` where it does not exist or cannot be resolved.
    pub canonical: Option<String>,
}

/// What the file system says of an input of a run.
#[derive(Debug)]
pub struct InputProbe {
    /// The input, taken from the base directory.
    pub input: PathProbe,
    /// The template of the input that was found, if the input is no
    /// template itself and one of its templates exists.
    pub template: Option<PathProbe>,
}

/// A [`PathProbe`] as plain values.
pub struct PathProbeView {
    pub path: Seq<char>,
    pub is_file: bool,
    pub is_dir: bool,
    pub canonical: Option<Seq<char>>,
}

impl View for PathProbe {
    type V = PathProbeView;

    open spec fn view(&self) -> PathProbeView {
        PathProbeView {
            path: self.path@,
            is_file: self.is_file,
            is_dir: self.is_dir,
            canonical: match self.canonical {
                Some(c) => Some(c@),
                None => None,
            },
        }
    }
}

/// What becomes of a path that was looked at.
pub enum Found {
    /// It is a template to preprocess, of this absolute path.
    File(Seq<char>),
    /// It is a directory to scan, of this absolute path.
    Dir(Seq<char>),
    /// It is passed over.
    Skip,
    /// It cannot be had: the error names this path.
    Fail(Seq<char>),
}

/// The absolute path of what was looked at, if it has one.
pub open spec fn spec_resolved(probe: PathProbeView) -> Result<Seq<char>, Seq<char>> {
    match probe.canonical {
        Some(c) => Ok(c),
        None => Err(probe.path),
    }
}

/// What becomes of an entry of a directory that is scanned: a file is
/// taken if it is a template, a directory if the scan is recursive.
pub open spec fn spec_scan_entry(recursive: bool, entry: PathProbeView) -> Found {
    if entry.is_file {
        if spec_is_txtpp_file(entry.path) {
            match spec_resolved(entry) {
                Ok(p) => Found::File(p),
                Err(e) => Found::Fail(e),
            }
        } else {
            Found::Skip
        }
    } else if entry.is_dir && recursive {
        match spec_resolved(entry) {
            Ok(p) => Found::Dir(p),
            Err(e) => Found::Fail(e),
        }
    } else {
        Found::Skip
    }
}

/// What becomes of an input of a run: a directory is scanned; a template
/// has to exist; of any other file the template has to.
pub open spec fn spec_resolve_input(input: PathProbeView, template: Option<PathProbeView>) -> Found {
    if input.is_dir {
        match spec_resolved(input) {
            Ok(p) => Found::Dir(p),
            Err(e) => Found::Fail(e),
        }
    } else if !spec_is_txtpp_file(input.path) {
        match template {
            Some(t) => match spec_resolved(t) {
                Ok(p) => Found::File(p),
                Err(e) => Found::Fail(e),
            },
            None => Found::Fail(input.path),
        }
    } else {
        match spec_resolved(input) {
            Ok(p) => Found::File(p),
            Err(e) => Found::Fail(e),
        }
    }
}

/// The files and directories that were found, in their order, or the path
/// that the first failure names.
pub open spec fn spec_collect(found: Seq<Found>) -> Result<(Seq<Seq<char>>, Seq<Seq<char>>), Seq<char>>
    decreases found.len(),
{
    if found.len() == 0 {
        Ok((Seq::empty(), Seq::empty()))
    } else {
        match spec_collect(found.drop_last()) {
            Err(e) => Err(e),
            Ok((files, dirs)) => match found.last() {
                Found::File(p) => Ok((files.push(p), dirs)),
                Found::Dir(p) => Ok((files, dirs.push(p))),
                Found::Skip => Ok((files, dirs)),
                Found::Fail(e) => Err(e),
            },
        }
    }
}

/// What becomes of each entry of a directory that is scanned.
pub open spec fn spec_scan_entries(recursive: bool, entries: Seq<PathProbe>) -> Seq<Found> {
    Seq::new(entries.len(), |i: int| spec_scan_entry(recursive, entries[i]@))
}

/// What becomes of each input of a run.
pub open spec fn spec_resolve_each(inputs: Seq<InputProbe>) -> Seq<Found> {
    Seq::new(
        inputs.len(),
        |i: int|
            spec_resolve_input(
                inputs[i].input@,
                match inputs[i].template {
                    Some(t) => Some(t@),
                    None => None,
                },
            ),
    )
}

/// Whether a result holds these files and directories, all on one base, or
/// names this path as the one that failed.
pub open spec fn holds(
    r: Result<Directory, PathError>,
    base: Seq<char>,
    expected: Result<(Seq<Seq<char>>, Seq<Seq<char>>), Seq<char>>,
) -> bool {
    match r {
        Ok(d) => expected == Ok::<(Seq<Seq<char>>, Seq<Seq<char>>), Seq<char>>(
            (paths(d.files@), paths(d.subdirs@)),
        ) && (forall|i: int| 0 <= i < d.files@.len() ==> (#[trigger] d.files@[i]).base() == base)
            && (forall|i: int|
            0 <= i < d.subdirs@.len() ==> (#[trigger] d.subdirs@[i]).base() == base),
        Err(e) => expected == Err::<(Seq<Seq<char>>, Seq<Seq<char>>), Seq<char>>(e.path@),
    }
}

/// The absolute path of what was looked at, on the base of `base`.
fn resolved(base: &AbsPath, probe: &PathProbe) -> (r: Result<AbsPath, PathError>)
    ensures
        match r {
            Ok(p) => spec_resolved(probe@) == Ok::<Seq<char>, Seq<char>>(p.path()) && p.base()
                == base.base(),
            Err(e) => spec_resolved(probe@) == Err::<Seq<char>, Seq<char>>(e.path@),
        },
{
    let canonical = match &probe.canonical {
        Some(c) => Some(c.clone()),
        None => None,
    };
    base.share_base(probe.path.as_str(), canonical)
}

/// The files and directories that a scan of a directory gives.
///
/// `entries` holds what was found in the directory. Of the files the
/// templates are taken, of the directories all if the scan is recursive
/// and none if it is not.
pub fn scan_dir(dir: &AbsPath, recursive: bool, entries: &Vec<PathProbe>) -> (r: Result<
    Directory,
    PathError,
>)
    ensures
        holds(r, dir.base(), spec_collect(spec_scan_entries(recursive, entries@))),
{
    let mut directory = Directory::new();
    let ghost all = spec_scan_entries(recursive, entries@);
    let mut i: usize = 0;
    assert(all.take(0) =~= Seq::empty());
    assert(paths(directory.files@) =~= Seq::empty() && paths(directory.subdirs@) =~= Seq::empty());
    while i < entries.len()
        invariant
            i <= entries.len(),
            all == spec_scan_entries(recursive, entries@),
            holds(Ok(directory), dir.base(), spec_collect(all.take(i as int))),
        decreases entries.len() - i,
    {
        let entry = &entries[i];
        let ghost files = paths(directory.files@);
        let ghost subdirs = paths(directory.subdirs@);
        proof {
            assert(all.take(i + 1).drop_last() =~= all.take(i as int));
            assert(all.take(i + 1).last() == spec_scan_entry(recursive, entry@));
        }
        if entry.is_file {
            if entry.path.as_str().is_txtpp_file() {
                match resolved(dir, entry) {
                    Ok(path_abs) => {
                        directory.files.push(path_abs);
                        assert(paths(directory.files@) =~= files.push(path_abs.path()));
                    },
                    Err(e) => {
                        proof {
                            lemma_collect_fails(all, i as int);
                        }
                        return Err(e);
                    },
                }
            }
        } else if entry.is_dir && recursive {
            match resolved(dir, entry) {
                Ok(path_abs) => {
                    directory.subdirs.push(path_abs);
                    assert(paths(directory.subdirs@) =~= subdirs.push(path_abs.path()));
                },
                Err(e) => {
                    proof {
                        lemma_collect_fails(all, i as int);
                    }
                    return Err(e);
                },
            }
        }
        i += 1;
    }
    assert(all.take(entries.len() as int) =~= all);
    Ok(directory)
}

/// The files and directories that a run begins with.
///
/// `inputs` holds what was found of each input. A directory is to be
/// scanned. A template is to be preprocessed, and has to exist. Any other
/// file stands for its template, which has to exist.
pub fn resolve_inputs(inputs: &Vec<InputProbe>, base_abs_path: &AbsPath) -> (r: Result<
    Directory,
    PathError,
>)
    ensures
        holds(r, base_abs_path.base(), spec_collect(spec_resolve_each(inputs@))),
{
    let mut directory = Directory::new();
    let ghost all = spec_resolve_each(inputs@);
    let mut i: usize = 0;
    assert(all.take(0) =~= Seq::empty());
    assert(paths(directory.files@) =~= Seq::empty() && paths(directory.subdirs@) =~= Seq::empty());
    while i < inputs.len()
        invariant
            i <= inputs.len(),
            all == spec_resolve_each(inputs@),
            holds(Ok(directory), base_abs_path.base(), spec_collect(all.take(i as int))),
        decreases inputs.len() - i,
    {
        let input = &inputs[i].input;
        let ghost files = paths(directory.files@);
        let ghost subdirs = paths(directory.subdirs@);
        proof {
            assert(all.take(i + 1).drop_last() =~= all.take(i as int));
            assert(all.take(i + 1).last() == all[i as int]);
        }
        let found = if input.is_dir {
            // if input is directory, add to the directories to scan
            match resolved(base_abs_path, input) {
                Ok(abs_path) => {
                    directory.subdirs.push(abs_path);
                    assert(paths(directory.subdirs@) =~= subdirs.push(abs_path.path()));
                    None
                },
                Err(e) => Some(e),
            }
        } else if !input.path.as_str().is_txtpp_file() {
            // input is a file but not a txtpp file
            // not that input file doesn't have to exist
            match &inputs[i].template {
                Some(template) => match resolved(base_abs_path, template) {
                    Ok(abs_path) => {
                        directory.files.push(abs_path);
                        assert(paths(directory.files@) =~= files.push(abs_path.path()));
                        None
                    },
                    Err(e) => Some(e),
                },
                None => Some(PathError { path: owned(input.path.as_str()) }),
            }
        } else {
            // input is txtpp file. it must exist
            match resolved(base_abs_path, input) {
                Ok(abs_path) => {
                    directory.files.push(abs_path);
                    assert(paths(directory.files@) =~= files.push(abs_path.path()));
                    None
                },
                Err(e) => Some(e),
            }
        };
        match found {
            Some(e) => {
                proof {
                    lemma_collect_fails(all, i as int);
                }
                return Err(e);
            },
            None => {},
        }
        i += 1;
    }
    assert(all.take(inputs.len() as int) =~= all);
    Ok(directory)
}

/// The first failure is the one that is reported, whatever comes after it.
pub proof fn lemma_collect_fails(found: Seq<Found>, i: int)
    requires
        0 <= i < found.len(),
        found[i] is Fail,
        spec_collect(found.take(i)) is Ok,
    ensures
        spec_collect(found) == Err::<(Seq<Seq<char>>, Seq<Seq<char>>), Seq<char>>(found[i]->Fail_0),
    decreases found.len(),
{
    if i == found.len() - 1 {
        assert(found.drop_last() =~= found.take(i));
    } else {
        assert(found.drop_last().take(i) =~= found.take(i));
        lemma_collect_fails(found.drop_last(), i);
    }
}

} // verus!
