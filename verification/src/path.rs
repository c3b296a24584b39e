//! Paths of files that are known to exist, and the names of templates.
//!
//! A path is held as text. What the platform's path syntax decides (where
//! the extension of a path begins, what its parent is) is asked of
//! `std::path`, and named here.
use crate::error::PathError;
use crate::text::{owned, starts_with, str_eq, to_chars, views};
use vstd::prelude::*;
use vstd::std_specs::cmp::PartialEqSpecImpl;

verus! {

/// Representation of an absolute path that exists.
///
/// A path is held as text. Beside the absolute path stands the base that it
/// is shown relative to. Two values are equal where their absolute paths
/// are: the base is not compared.
#[derive(Debug)]
pub struct AbsPath {
    /// Base
    b: String,
    /// Absolute path
    p: String,
}

impl AbsPath {
    /// The absolute path.
    pub closed spec fn path(&self) -> Seq<char> {
        self.p@
    }

    /// The base that the path is shown relative to.
    pub closed spec fn base(&self) -> Seq<char> {
        self.b@
    }

    /// A path that is its own base.
    pub fn new(p: String) -> (r: Self)
        ensures
            r.path() == p@,
            r.base() == p@,
    {
        Self { b: p.clone(), p }
    }

    /// The absolute path, borrowed.
    pub fn as_path_buf(&self) -> (r: &String)
        ensures
            r@ == self.path(),
    {
        &self.p
    }

    /// The absolute path.
    pub fn into_path_buf(self) -> (r: String)
        ensures
            r@ == self.path(),
    {
        self.p
    }

    /// The absolute path, as a string slice.
    pub fn as_path(&self) -> (r: &str)
        ensures
            r@ == self.path(),
    {
        self.p.as_str()
    }

    /// The base, as a string slice.
    pub fn base_path(&self) -> (r: &str)
        ensures
            r@ == self.base(),
    {
        self.b.as_str()
    }
}

/// An [`AbsPath`] as plain values.
pub struct AbsPathView {
    /// The base that the path is shown relative to.
    pub base: Seq<char>,
    /// The absolute path.
    pub path: Seq<char>,
}

impl View for AbsPath {
    type V = AbsPathView;

    open spec fn view(&self) -> AbsPathView {
        AbsPathView { base: self.base(), path: self.path() }
    }
}

impl Clone for AbsPath {
    fn clone(&self) -> (r: Self)
        ensures
            r@ == self@,
    {
        Self { b: self.b.clone(), p: self.p.clone() }
    }
}

impl PartialEq for AbsPath {
    fn eq(&self, other: &Self) -> (r: bool) {
        self.p == other.p
    }
}

impl PartialEqSpecImpl for AbsPath {
    open spec fn obeys_eq_spec() -> bool {
        true
    }

    open spec fn eq_spec(&self, other: &Self) -> bool {
        self.path() == other.path()
    }
}

/// The absolute path of each.
pub open spec fn paths(v: Seq<AbsPath>) -> Seq<Seq<char>> {
    Seq::new(v.len(), |i: int| v[i].path())
}

/// Each path with its base.
pub open spec fn abs_views(v: Seq<AbsPath>) -> Seq<AbsPathView> {
    Seq::new(v.len(), |i: int| v[i]@)
}

/// The absolute path of each.
pub open spec fn paths_of(v: Seq<AbsPathView>) -> Seq<Seq<char>> {
    Seq::new(v.len(), |i: int| v[i].path)
}

/// The extension that marks a template.
pub const TXTPP_EXT: &'static str = "txtpp";

/// Whether `std::path::is_separator` holds of a character: whether it
/// separates the components of a path.
pub uninterp spec fn is_path_separator(c: char) -> bool;

/// What `Path::file_name` gives for a path: its last component, if the
/// path ends in one that is a name.
pub uninterp spec fn path_file_name(p: Seq<char>) -> Option<Seq<char>>;

/// What `Path::with_extension` gives for a path and an extension.
pub uninterp spec fn path_with_extension(p: Seq<char>, ext: Seq<char>) -> Seq<char>;

/// What `Path::parent` gives for a path.
pub uninterp spec fn path_parent(p: Seq<char>) -> Option<Seq<char>>;

/// What `Path::join` gives for a path and one to append to it.
pub uninterp spec fn path_join(base: Seq<char>, ext: Seq<char>) -> Seq<char>;

/// What `Path::strip_prefix` gives for a path and the base to take from it.
pub uninterp spec fn path_strip_prefix(p: Seq<char>, base: Seq<char>) -> Option<Seq<char>>;

/// No character of the text separates the components of a path.
pub open spec fn no_separator(s: Seq<char>) -> bool {
    forall|i: int| 0 <= i < s.len() ==> !is_path_separator(#[trigger] s[i])
}

/// Position of the last dot of a file name.
pub open spec fn spec_last_dot(name: Seq<char>) -> Option<int>
    decreases name.len(),
{
    if name.len() == 0 {
        None
    } else if name.last() == '.' {
        Some(name.len() - 1)
    } else {
        spec_last_dot(name.drop_last())
    }
}

/// The extension of a file name: what follows its last dot. A name
/// without a dot has none, and neither has one whose only dot begins it.
pub open spec fn spec_name_extension(name: Seq<char>) -> Option<Seq<char>> {
    match spec_last_dot(name) {
        Some(i) => if i == 0 {
            None
        } else {
            Some(name.skip(i + 1))
        },
        None => None,
    }
}

/// The stem of a file name: what stands before the dot of its
/// extension, all of it where it has no extension.
pub open spec fn spec_name_stem(name: Seq<char>) -> Seq<char> {
    match spec_last_dot(name) {
        Some(i) => if i == 0 {
            name
        } else {
            name.take(i)
        },
        None => name,
    }
}

/// Whether the stem of a file name is a name itself: it is neither `.`
/// nor `..`, which stand for directories.
pub open spec fn spec_stem_is_name(name: Seq<char>) -> bool {
    spec_name_stem(name) != "."@ && spec_name_stem(name) != ".."@
}

/// A file name with another extension, or with none where `ext` is empty.
pub open spec fn spec_name_with_extension(name: Seq<char>, ext: Seq<char>) -> Seq<char> {
    if ext.len() == 0 {
        spec_name_stem(name)
    } else {
        spec_name_stem(name) + "."@ + ext
    }
}

/// Whether a file name is that of a template: its extension is `txtpp`,
/// or the extension before that one is.
pub open spec fn spec_is_txtpp_name(name: Seq<char>) -> bool {
    match spec_name_extension(name) {
        Some(ext) => ext == TXTPP_EXT@ || spec_name_extension(spec_name_stem(name)) == Some(
            TXTPP_EXT@,
        ),
        None => false,
    }
}

/// The name of the file that a template gives: the template's name
/// without the `txtpp` extension. Where that is the extension before the
/// last, the last one is kept.
pub open spec fn spec_output_name(name: Seq<char>) -> Seq<char> {
    if spec_name_extension(spec_name_stem(name)) == Some(TXTPP_EXT@) {
        spec_name_with_extension(spec_name_stem(name), spec_name_extension(name)->0)
    } else {
        spec_name_stem(name)
    }
}

/// Calls `std::path::is_separator`. Trusted: the result is what
/// [`is_path_separator`] names.
#[verifier::external_body]
pub(crate) fn char_is_separator(c: char) -> (b: bool)
    ensures
        b == is_path_separator(c),
{
    std::path::is_separator(c)
}

/// Calls `Path::file_name`. Trusted: the result is what [`path_file_name`]
/// names.
#[verifier::external_body]
pub(crate) fn file_name_of(p: &str) -> (r: Option<String>)
    ensures
        match r {
            Some(name) => path_file_name(p@) == Some(name@),
            None => path_file_name(p@) is None,
        },
{
    std::path::Path::new(p).file_name().and_then(|n| n.to_str()).map(|n| n.to_string())
}

/// Calls `Path::with_extension`, which panics where the extension holds a
/// separator. Trusted: the result is what [`path_with_extension`] names. It
/// is the path itself where that has no file name. Else, where the stem of
/// the file name is a name itself, the file name of the result is that of
/// the path with the extension replaced, added where there was none, or
/// taken away where the new one is empty. Nothing is said of the file name
/// of the result where the stem is `.` or `..`.
#[verifier::external_body]
pub(crate) fn with_extension(p: &str, ext: &str) -> (r: String)
    requires
        no_separator(ext@),
    ensures
        r@ == path_with_extension(p@, ext@),
        match path_file_name(p@) {
            Some(name) => spec_stem_is_name(name) ==> path_file_name(r@) == Some(
                spec_name_with_extension(name, ext@),
            ),
            None => r@ == p@,
        },
{
    std::path::Path::new(p).with_extension(ext).to_string_lossy().into_owned()
}

/// Calls `Path::parent`. Trusted: the result is what [`path_parent`] names.
#[verifier::external_body]
pub(crate) fn parent_of(p: &str) -> (r: Option<String>)
    ensures
        match r {
            Some(q) => path_parent(p@) == Some(q@),
            None => path_parent(p@) is None,
        },
{
    std::path::Path::new(p).parent().map(|q| q.to_string_lossy().into_owned())
}

/// Calls `Path::join`. Trusted: the result is what [`path_join`] names.
#[verifier::external_body]
pub(crate) fn join_paths(base: &str, ext: &str) -> (r: String)
    ensures
        r@ == path_join(base@, ext@),
{
    std::path::Path::new(base).join(ext).to_string_lossy().into_owned()
}

/// Calls `Path::strip_prefix`. Trusted: the result is what
/// [`path_strip_prefix`] names, `None` where the call fails.
#[verifier::external_body]
pub(crate) fn strip_base(p: &str, base: &str) -> (r: Option<String>)
    ensures
        match r {
            Some(q) => path_strip_prefix(p@, base@) == Some(q@),
            None => path_strip_prefix(p@, base@) is None,
        },
{
    std::path::Path::new(p).strip_prefix(base).ok().map(|q| q.to_string_lossy().into_owned())
}

/// Whether no character of the text separates the components of a path.
pub fn has_no_separator(s: &str) -> (b: bool)
    ensures
        b == no_separator(s@),
{
    let v = to_chars(s);
    let mut i: usize = 0;
    while i < v.len()
        invariant
            i <= v.len(),
            v@ == s@,
            forall|j: int| 0 <= j < i ==> !is_path_separator(#[trigger] s@[j]),
        decreases v.len() - i,
    {
        if char_is_separator(v[i]) {
            return false;
        }
        i += 1;
    }
    true
}

/// Position of the last dot of a file name.
fn last_dot(name: &str) -> (r: Option<usize>)
    ensures
        match r {
            Some(i) => spec_last_dot(name@) == Some(i as int) && i < name@.len(),
            None => spec_last_dot(name@) is None,
        },
{
    let v = to_chars(name);
    let mut i: usize = v.len();
    assert(name@.take(i as int) =~= name@);
    while i > 0
        invariant
            i <= v.len(),
            v@ == name@,
            spec_last_dot(name@) == spec_last_dot(name@.take(i as int)),
        decreases i,
    {
        if v[i - 1] == '.' {
            return Some(i - 1);
        }
        assert(name@.take(i as int).drop_last() =~= name@.take(i - 1));
        i -= 1;
    }
    None
}

/// The extension of a file name, see [`spec_name_extension`].
pub fn name_extension(name: &str) -> (r: Option<String>)
    ensures
        match r {
            Some(ext) => spec_name_extension(name@) == Some(ext@),
            None => spec_name_extension(name@) is None,
        },
{
    match last_dot(name) {
        Some(i) => {
            if i == 0 {
                None
            } else {
                let n = name.unicode_len();
                Some(owned(name.substring_char(i + 1, n)))
            }
        },
        None => None,
    }
}

/// The stem of a file name, see [`spec_name_stem`].
pub fn name_stem(name: &str) -> (r: &str)
    ensures
        r@ == spec_name_stem(name@),
{
    match last_dot(name) {
        Some(i) => {
            if i == 0 {
                name
            } else {
                name.substring_char(0, i)
            }
        },
        None => name,
    }
}

/// Whether a file name is that of a template, see [`spec_is_txtpp_name`].
pub fn is_txtpp_name(name: &str) -> (b: bool)
    ensures
        b == spec_is_txtpp_name(name@),
{
    match name_extension(name) {
        Some(ext) => {
            if str_eq(ext.as_str(), TXTPP_EXT) {
                return true;
            }
            // check if the second extension is txtpp
            match name_extension(name_stem(name)) {
                Some(ext) => str_eq(ext.as_str(), TXTPP_EXT),
                None => false,
            }
        },
        None => false,
    }
}

/// The last dot of a name lies in the name.
proof fn lemma_last_dot_in_range(name: Seq<char>)
    ensures
        match spec_last_dot(name) {
            Some(i) => 0 <= i < name.len() && name[i] == '.',
            None => true,
        },
    decreases name.len(),
{
    if name.len() > 0 && name.last() != '.' {
        lemma_last_dot_in_range(name.drop_last());
    }
}

/// Whether a path names a template: it has a file name, and that is the
/// name of a template.
pub open spec fn spec_is_txtpp_file(p: Seq<char>) -> bool {
    match path_file_name(p) {
        Some(name) => spec_is_txtpp_name(name),
        None => false,
    }
}

/// The path of the file that a template gives: the template's path
/// without its last extension, and with the last extension in place of
/// `txtpp` where that is the extension before the last. There is none
/// where that last extension holds a separator.
pub open spec fn spec_remove_txtpp(p: Seq<char>) -> Option<Seq<char>> {
    match path_file_name(p) {
        Some(name) => if spec_is_txtpp_name(name) {
            let q = path_with_extension(p, Seq::empty());
            if spec_name_extension(spec_name_stem(name)) == Some(TXTPP_EXT@) {
                if no_separator(spec_name_extension(name)->0) {
                    Some(path_with_extension(q, spec_name_extension(name)->0))
                } else {
                    None
                }
            } else {
                Some(q)
            }
        } else {
            None
        },
        None => None,
    }
}

/// Whether the names that stand between a template's name and the name
/// of the file that it gives have stems that are names themselves.
pub open spec fn spec_output_is_named(name: Seq<char>) -> bool {
    spec_stem_is_name(name) && (spec_name_extension(spec_name_stem(name)) == Some(TXTPP_EXT@)
        ==> spec_stem_is_name(spec_name_stem(name)))
}

/// Whether the names that stand between the name of a file and the
/// name of its template `i` have stems that are names themselves.
pub open spec fn spec_candidate_is_named(name: Seq<char>, i: int) -> bool {
    spec_stem_is_name(name) && (i == 1 ==> {
        let first = spec_name_with_extension(
            name,
            spec_name_extension(name)->0 + "."@ + TXTPP_EXT@,
        );
        spec_stem_is_name(first) && spec_stem_is_name(
            spec_name_with_extension(first, Seq::empty()),
        )
    })
}

/// The paths at which the template of a file can stand, in the order in
/// which they are tried: for `foo.bar` first `foo.bar.txtpp`, then
/// `foo.txtpp.bar`; for `foo` only `foo.txtpp`. A template has none, and
/// neither has a path without a file name.
pub open spec fn spec_txtpp_candidates(p: Seq<char>) -> Seq<Seq<char>> {
    match path_file_name(p) {
        Some(name) => if spec_is_txtpp_name(name) {
            Seq::empty()
        } else {
            match spec_name_extension(name) {
                Some(ext) => {
                    let after = ext + "."@ + TXTPP_EXT@;
                    let before = TXTPP_EXT@ + "."@ + ext;
                    if no_separator(after) && no_separator(before) {
                        let first = path_with_extension(p, after);
                        seq![
                            first,
                            path_with_extension(path_with_extension(first, Seq::empty()), before),
                        ]
                    } else {
                        Seq::empty()
                    }
                },
                None => if no_separator(TXTPP_EXT@) {
                    seq![path_with_extension(p, TXTPP_EXT@)]
                } else {
                    Seq::empty()
                },
            }
        },
        None => Seq::empty(),
    }
}

/// The names at which the template of a file of this name can stand, see
/// [`spec_txtpp_candidates`].
pub open spec fn spec_candidate_names(name: Seq<char>) -> Seq<Seq<char>> {
    if spec_is_txtpp_name(name) {
        Seq::empty()
    } else {
        match spec_name_extension(name) {
            Some(ext) => {
                let first = spec_name_with_extension(name, ext + "."@ + TXTPP_EXT@);
                seq![
                    first,
                    spec_name_with_extension(
                        spec_name_with_extension(first, Seq::empty()),
                        TXTPP_EXT@ + "."@ + ext,
                    ),
                ]
            },
            None => seq![spec_name_with_extension(name, TXTPP_EXT@)],
        }
    }
}

/// No character of the text is a dot.
pub open spec fn has_no_dot(s: Seq<char>) -> bool {
    forall|i: int| 0 <= i < s.len() ==> #[trigger] s[i] != '.'
}

/// Behind the last dot of a name stands no dot.
proof fn lemma_no_dot_behind_the_last(name: Seq<char>)
    ensures
        match spec_last_dot(name) {
            Some(i) => 0 <= i && forall|j: int| i < j < name.len() ==> #[trigger] name[j] != '.',
            None => has_no_dot(name),
        },
    decreases name.len(),
{
    lemma_last_dot_in_range(name);
    if name.len() > 0 && name.last() != '.' {
        let init = name.drop_last();
        lemma_no_dot_behind_the_last(init);
        match spec_last_dot(init) {
            Some(i) => {
                assert forall|j: int| i < j < name.len() implies #[trigger] name[j] != '.' by {
                    if j < init.len() {
                        assert(init[j] == name[j]);
                    }
                }
            },
            None => {
                assert forall|j: int| 0 <= j < name.len() implies #[trigger] name[j] != '.' by {
                    if j < init.len() {
                        assert(init[j] == name[j]);
                    }
                }
            },
        }
    }
}

/// The last dot of a text, a dot and a text without dots is that dot.
proof fn lemma_last_dot_of_joined(a: Seq<char>, b: Seq<char>)
    requires
        has_no_dot(b),
    ensures
        spec_last_dot(a + "."@ + b) == Some(a.len() as int),
    decreases b.len(),
{
    reveal_strlit(".");
    let s = a + "."@ + b;
    if b.len() == 0 {
        assert(s.last() == '.');
    } else {
        assert(s.last() == b.last());
        assert(s.drop_last() =~= a + "."@ + b.drop_last());
        assert forall|i: int| 0 <= i < b.drop_last().len() implies #[trigger] b.drop_last()[i]
            != '.' by {
            assert(b.drop_last()[i] == b[i]);
        }
        lemma_last_dot_of_joined(a, b.drop_last());
    }
}

/// A name that has an extension is its stem, a dot and its extension,
/// and the extension holds no dot.
proof fn lemma_stem_and_extension(name: Seq<char>)
    requires
        spec_name_extension(name) is Some,
    ensures
        name == spec_name_stem(name) + "."@ + spec_name_extension(name)->0,
        has_no_dot(spec_name_extension(name)->0),
        spec_name_stem(name).len() > 0,
{
    reveal_strlit(".");
    lemma_last_dot_in_range(name);
    lemma_no_dot_behind_the_last(name);
    let i = spec_last_dot(name)->0;
    let ext = name.skip(i + 1);
    assert(name =~= name.take(i) + "."@ + ext);
    assert forall|j: int| 0 <= j < ext.len() implies #[trigger] ext[j] != '.' by {
        assert(ext[j] == name[i + 1 + j]);
    }
}

/// Each name at which the template of a file can stand is the name of a
/// template, and that template gives the file.
///
/// This is not so of the second name for a file whose name ends in a dot.
pub proof fn lemma_candidates_are_templates(name: Seq<char>, i: int)
    requires
        name.len() > 0,
        0 <= i < spec_candidate_names(name).len(),
        i == 1 ==> spec_name_extension(name)->0.len() > 0,
    ensures
        spec_is_txtpp_name(spec_candidate_names(name)[i]),
        spec_output_name(spec_candidate_names(name)[i]) == name,
{
    reveal_strlit(".");
    reveal_strlit("txtpp");
    let txtpp = TXTPP_EXT@;
    assert(has_no_dot(txtpp));
    assert(txtpp.len() == 5);
    match spec_name_extension(name) {
        Some(ext) => {
            lemma_stem_and_extension(name);
            let stem = spec_name_stem(name);
            let first = stem + "."@ + (ext + "."@ + txtpp);
            assert(first =~= name + "."@ + txtpp);
            lemma_last_dot_of_joined(name, txtpp);
            assert((name + "."@ + txtpp).take(name.len() as int) =~= name);
            assert((name + "."@ + txtpp).skip(name.len() as int + 1) =~= txtpp);
            assert(spec_name_stem(first) == name);
            assert(spec_name_extension(first) == Some(txtpp));
            if i == 1 {
                let second = stem + "."@ + (txtpp + "."@ + ext);
                let inner = stem + "."@ + txtpp;
                assert(second =~= inner + "."@ + ext);
                lemma_last_dot_of_joined(inner, ext);
                assert((inner + "."@ + ext).take(inner.len() as int) =~= inner);
                assert((inner + "."@ + ext).skip(inner.len() as int + 1) =~= ext);
                assert(spec_name_stem(second) == inner);
                assert(spec_name_extension(second) == Some(ext));
                lemma_last_dot_of_joined(stem, txtpp);
                assert(inner.take(stem.len() as int) =~= stem);
                assert(inner.skip(stem.len() as int + 1) =~= txtpp);
                assert(spec_name_extension(inner) == Some(txtpp));
                assert(spec_name_stem(inner) == stem);
            }
        },
        None => {
            lemma_no_dot_behind_the_last(name);
            lemma_last_dot_in_range(name);
            assert(spec_name_stem(name) == name);
            let c = name + "."@ + txtpp;
            lemma_last_dot_of_joined(name, txtpp);
            assert(c.take(name.len() as int) =~= name);
            assert(c.skip(name.len() as int + 1) =~= txtpp);
        },
    }
}

/// What is said of a path that may name a template.
pub trait TxtppPath {
    /// Check if the path matches a txtpp file format. The path can be non-existent and this will
    /// still return true as long as the format is correct.
    fn is_txtpp_file(&self) -> bool;

    /// If current path is a txtpp file, return the path corresponding to the output of the txtpp
    /// file. If the path is not a txtpp file, an error will be returned.
    fn remove_txtpp(&self) -> Result<String, PathError>;

    /// The paths at which the txtpp file corresponding to the current path can stand.
    ///
    /// For a file foo.bar, the txtpp file could be:
    /// - foo.bar.txtpp, or
    /// - foo.txtpp.bar
    ///
    /// If the path is already a txtpp file, there is none.
    fn txtpp_candidates(&self) -> Vec<String>;
}

impl TxtppPath for str {
    fn is_txtpp_file(&self) -> (b: bool)
        ensures
            b == spec_is_txtpp_file(self@),
    {
        match file_name_of(self) {
            Some(name) => is_txtpp_name(name.as_str()),
            None => false,
        }
    }

    fn remove_txtpp(&self) -> (r: Result<String, PathError>)
        ensures
            match r {
                Ok(q) => spec_remove_txtpp(self@) == Some(q@) && (spec_output_is_named(
                    path_file_name(self@)->0,
                ) ==> path_file_name(q@) == Some(spec_output_name(path_file_name(self@)->0))),
                Err(e) => spec_remove_txtpp(self@) is None && e.path@ == self@,
            },
    {
        let name = match file_name_of(self) {
            Some(name) => name,
            None => {
                return Err(PathError { path: owned(self) });
            },
        };
        if !is_txtpp_name(name.as_str()) {
            return Err(PathError { path: owned(self) });
        }
        proof {
            reveal_strlit("");
            assert(""@ =~= Seq::<char>::empty());
        }
        let p = with_extension(self, "");
        let second = match name_extension(name_stem(name.as_str())) {
            Some(ext) => str_eq(ext.as_str(), TXTPP_EXT),
            None => false,
        };
        if second {
            // put the last extension in the place of the txtpp extension
            match name_extension(name.as_str()) {
                Some(self_ext) => {
                    if !has_no_separator(self_ext.as_str()) {
                        return Err(PathError { path: owned(self) });
                    }
                    Ok(with_extension(p.as_str(), self_ext.as_str()))
                },
                None => Err(PathError { path: owned(self) }),
            }
        } else {
            Ok(p)
        }
    }

    fn txtpp_candidates(&self) -> (r: Vec<String>)
        ensures
            views(r@) == spec_txtpp_candidates(self@),
            forall|i: int|
                0 <= i < r@.len() ==> path_file_name(self@) is Some && (spec_candidate_is_named(
                    path_file_name(self@)->0,
                    i,
                ) ==> path_file_name(#[trigger] r@[i]@) == Some(
                    spec_candidate_names(path_file_name(self@)->0)[i],
                )),
    {
        let mut out: Vec<String> = Vec::new();
        assert(views(out@) =~= Seq::empty());
        let name = match file_name_of(self) {
            Some(name) => name,
            None => {
                return out;
            },
        };
        if is_txtpp_name(name.as_str()) {
            return out;
        }
        proof {
            reveal_strlit("");
            assert(""@ =~= Seq::<char>::empty());
        }
        match name_extension(name.as_str()) {
            Some(ext) => {
                // if there is extension, try .xxx.txtpp then .txtpp.xxx
                let mut after = ext.clone();
                after.append(".");
                after.append(TXTPP_EXT);
                let mut before = String::from_str(TXTPP_EXT);
                before.append(".");
                before.append(ext.as_str());
                if has_no_separator(after.as_str()) && has_no_separator(before.as_str()) {
                    let first = with_extension(self, after.as_str());
                    let stem = with_extension(first.as_str(), "");
                    let second = with_extension(stem.as_str(), before.as_str());
                    out.push(first);
                    out.push(second);
                    assert(views(out@) =~= spec_txtpp_candidates(self@));
                }
            },
            None => {
                // if there's no extension, the only way is adding .txtpp at the end
                if has_no_separator(TXTPP_EXT) {
                    out.push(with_extension(self, TXTPP_EXT));
                    assert(views(out@) =~= spec_txtpp_candidates(self@));
                }
            },
        }
        out
    }
}

/// Where backslashes separate the components of a path, a path may begin
/// with `\\?\`: it is shown without.
pub open spec fn spec_normalize_path(p: Seq<char>) -> Seq<char> {
    if is_path_separator('\\') && crate::text::spec_starts_with(p, "\\\\?\\"@) {
        p.skip(4)
    } else {
        p
    }
}

/// A path as it is shown, see [`spec_normalize_path`].
pub fn normalize_path(p: &str) -> (r: &str)
    ensures
        r@ == spec_normalize_path(p@),
{
    proof {
        reveal_strlit("\\\\?\\");
    }
    if char_is_separator('\\') && starts_with(p, "\\\\?\\") {
        let n = p.unicode_len();
        p.substring_char(4, n)
    } else {
        p
    }
}

/// A path as it is shown beside its base: what follows the base, where the
/// path lies under it, the whole path where it does not or is the base itself.
pub open spec fn spec_path_string_from_base(base: Seq<char>, path: Seq<char>) -> Seq<char> {
    match path_strip_prefix(path, base) {
        Some(rel) => if rel.len() > 0 {
            spec_normalize_path(rel)
        } else {
            spec_normalize_path(path)
        },
        None => spec_normalize_path(path),
    }
}

/// A path as it is shown beside its base, see [`spec_path_string_from_base`].
pub fn path_string_from_base(base: &str, path: &str) -> (r: String)
    ensures
        r@ == spec_path_string_from_base(base@, path@),
{
    match strip_base(path, base) {
        Some(rel) => {
            if rel.as_str().unicode_len() > 0 {
                owned(normalize_path(rel.as_str()))
            } else {
                owned(normalize_path(path))
            }
        },
        None => owned(normalize_path(path)),
    }
}

impl AbsPath {
    /// The path under the base `base`, where `canonical` is what making
    /// `p` absolute gave: `None` where `p` does not exist or cannot be resolved.
    fn from_canonical(base: Option<&str>, p: &str, canonical: Option<String>) -> (r: Result<
        Self,
        PathError,
    >)
        ensures
            match r {
                Ok(a) => canonical is Some && a.path() == canonical->0@ && a.base() == (match base {
                    Some(b) => b@,
                    None => canonical->0@,
                }),
                Err(e) => canonical is None && e.path@ == p@,
            },
    {
        match canonical {
            Some(c) => {
                let b = match base {
                    Some(b) => owned(b),
                    None => c.clone(),
                };
                Ok(Self { b, p: c })
            },
            None => Err(PathError { path: owned(p) }),
        }
    }

    /// Convert a path to an absolute path as a base
    ///
    /// `canonical` is what making `p` absolute gave. This will error if:
    /// - the path doesn't exist
    /// - the path cannot be made absolute for some reason
    pub fn create_base(p: &str, canonical: Option<String>) -> (r: Result<Self, PathError>)
        ensures
            match r {
                Ok(a) => canonical is Some && a.path() == canonical->0@ && a.base()
                    == canonical->0@,
                Err(e) => canonical is None && e.path@ == p@,
            },
    {
        Self::from_canonical(None, p, canonical)
    }

    /// Convert a path to an absolute path with the same base
    ///
    /// `canonical` is what making `p` absolute gave. This will error if:
    /// - the path doesn't exist
    /// - the path cannot be made absolute for some reason
    pub fn share_base(&self, p: &str, canonical: Option<String>) -> (r: Result<Self, PathError>)
        ensures
            match r {
                Ok(a) => canonical is Some && a.path() == canonical->0@ && a.base() == self.base(),
                Err(e) => canonical is None && e.path@ == p@,
            },
    {
        Self::from_canonical(Some(self.b.as_str()), p, canonical)
    }

    /// Resolve a path relative to the current path
    ///
    /// if `ext` is absolute, return `ext`, otherwise join `ext` with the current path.
    pub fn resolve(&self, ext: &str) -> (r: String)
        ensures
            r@ == path_join(self.path(), ext@),
    {
        join_paths(self.p.as_str(), ext)
    }

    /// Resolve a path relative to the current path, to a path that exists
    ///
    /// `canonical` is what making [`AbsPath::resolve`] of `ext` absolute gave.
    pub fn try_resolve(&self, ext: &str, canonical: Option<String>) -> (r: Result<Self, PathError>)
        ensures
            match r {
                Ok(a) => canonical is Some && a.path() == canonical->0@ && a.base() == self.base(),
                Err(e) => canonical is None && e.path@ == path_join(self.path(), ext@),
            },
    {
        let target = self.resolve(ext);
        self.share_base(target.as_str(), canonical)
    }

    /// Get the parent
    pub fn parent(&self) -> (r: Result<Self, PathError>)
        ensures
            match r {
                Ok(a) => path_parent(self.path()) == Some(a.path()) && a.base() == self.base(),
                Err(e) => path_parent(self.path()) is None && e.path@ == self.path(),
            },
    {
        match parent_of(self.p.as_str()) {
            Some(q) => Ok(Self { b: self.b.clone(), p: q }),
            None => Err(PathError { path: self.p.clone() }),
        }
    }

    /// The path of the file that this template gives, as it is shown beside the base.
    pub fn trim_txtpp(&self) -> (r: Result<String, PathError>)
        ensures
            match r {
                Ok(s) => spec_remove_txtpp(self.path()) is Some && s@
                    == spec_path_string_from_base(self.base(), spec_remove_txtpp(self.path())->0),
                Err(e) => spec_remove_txtpp(self.path()) is None && e.path@ == self.path(),
            },
    {
        match self.p.as_str().remove_txtpp() {
            Ok(p) => Ok(path_string_from_base(self.b.as_str(), p.as_str())),
            Err(e) => Err(e),
        }
    }

    /// The path as it is shown beside its base.
    pub fn to_string(&self) -> (r: String)
        ensures
            r@ == spec_path_string_from_base(self.base(), self.path()),
    {
        path_string_from_base(self.b.as_str(), self.p.as_str())
    }
}

/// Represents a scanned directory, with txtpp input files and subdirectories.
#[derive(Debug)]
pub struct Directory {
    /// txtpp input files
    pub files: Vec<AbsPath>,
    /// subdirectories
    pub subdirs: Vec<AbsPath>,
}

impl Directory {
    /// A directory in which nothing was found.
    pub fn new() -> (d: Self)
        ensures
            d.files@.len() == 0,
            d.subdirs@.len() == 0,
    {
        Self { files: Vec::new(), subdirs: Vec::new() }
    }
}

} // verus!
