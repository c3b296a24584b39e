//! Tags: a directive's output kept back under a name, and put in where the
//! name next stands in the text.
use crate::line_ending::{spec_replace_line_ending, ReplaceLineEnding};
use crate::text::{find, spec_find, spec_starts_with, starts_with, to_chars};
use vstd::prelude::*;

verus! {

/// A tag that holds its content.
pub struct StoredTag {
    pub name: String,
    pub content: String,
}

/// The tags of one file.
pub struct TagState {
    listening: Option<String>,
    stored: Vec<StoredTag>,
}

/// A tag could not be created.
#[derive(Debug)]
pub struct TagStateError;

impl TagStateError {
    /// What the error says.
    pub fn message(&self) -> (s: &'static str)
        ensures
            s@ == "Tag state is invalid"@,
    {
        "Tag state is invalid"
    }
}

/// What a [`TagState`] holds: the name of the tag that waits for its
/// content, and the tags that have theirs, each as name and content, in the
/// order in which they were stored.
pub struct TagStateView {
    pub listening: Option<Seq<char>>,
    pub stored: Seq<(Seq<char>, Seq<char>)>,
}

/// Whether one of two names begins with the other. Equal names do.
pub open spec fn ambiguous(a: Seq<char>, b: Seq<char>) -> bool {
    spec_starts_with(a, b) || spec_starts_with(b, a)
}

impl TagStateView {
    /// No two names in the state are ambiguous.
    pub open spec fn wf(self) -> bool {
        &&& forall|i: int, j: int|
            0 <= i < j < self.stored.len() ==> !ambiguous(
                #[trigger] self.stored[i].0,
                #[trigger] self.stored[j].0,
            )
        &&& self.listening is Some ==> forall|i: int|
            0 <= i < self.stored.len() ==> !ambiguous(
                self.listening->0,
                #[trigger] self.stored[i].0,
            )
    }

    /// Whether a tag of this name can be created: none is listening, and no
    /// stored name is ambiguous with it.
    pub open spec fn can_create(self, tag: Seq<char>) -> bool {
        &&& self.listening is None
        &&& forall|i: int| 0 <= i < self.stored.len() ==> !ambiguous(#[trigger] self.stored[i].0, tag)
    }

    /// Position in the text at which the stored tag `j` is put in when the
    /// text is read from `from` on: that of its first occurrence in the
    /// whole text, if that is not before `from`.
    pub open spec fn place(self, text: Seq<char>, from: int, j: int) -> Option<int> {
        match spec_find(text, self.stored[j].0) {
            Some(i) => if i >= from {
                Some(i)
            } else {
                None
            },
            None => None,
        }
    }

    /// Among the first `n` stored tags, the one that has the earliest place.
    pub open spec fn next_tag(self, text: Seq<char>, from: int, n: int) -> Option<int>
        decreases n,
    {
        if n <= 0 {
            None
        } else {
            let rest = self.next_tag(text, from, n - 1);
            match self.place(text, from, n - 1) {
                None => rest,
                Some(i) => match rest {
                    Some(j) => if self.place(text, from, j) is Some && self.place(
                        text,
                        from,
                        j,
                    )->0 <= i {
                        rest
                    } else {
                        Some(n - 1)
                    },
                    None => Some(n - 1),
                },
            }
        }
    }

    /// The text from `from` on with the tags put in, and the tags that are left.
    ///
    /// The tag with the earliest place is put in first: its content stands
    /// for its name, with the content's line endings rewritten. The text
    /// behind the name is treated in the same way, without that tag.
    pub open spec fn inject_from(self, text: Seq<char>, line_ending: Seq<char>, from: int) -> (
        Seq<char>,
        Seq<(Seq<char>, Seq<char>)>,
    )
        decreases self.stored.len(),
    {
        match self.next_tag(text, from, self.stored.len() as int) {
            Some(j) => if 0 <= j < self.stored.len() && self.place(text, from, j) is Some {
                let i = self.place(text, from, j)->0;
                let rest = TagStateView { stored: self.stored.remove(j), ..self }.inject_from(
                    text,
                    line_ending,
                    i + self.stored[j].0.len(),
                );
                (
                    text.subrange(from, i) + spec_replace_line_ending(
                        self.stored[j].1,
                        line_ending,
                        false,
                    ) + rest.0,
                    rest.1,
                )
            } else {
                (text.skip(from), self.stored)
            },
            None => (text.skip(from), self.stored),
        }
    }

    /// The line as it is written, and the tags that are left.
    pub open spec fn inject(self, text: Seq<char>, line_ending: Seq<char>) -> (
        Seq<char>,
        Seq<(Seq<char>, Seq<char>)>,
    ) {
        let r = self.inject_from(text, line_ending, 0);
        (r.0 + line_ending, r.1)
    }
}

/// Name and content of each stored tag.
pub open spec fn stored_views(v: Seq<StoredTag>) -> Seq<(Seq<char>, Seq<char>)> {
    Seq::new(v.len(), |i: int| (v[i].name@, v[i].content@))
}

impl View for TagState {
    type V = TagStateView;

    closed spec fn view(&self) -> TagStateView {
        TagStateView {
            listening: match self.listening {
                Some(s) => Some(s@),
                None => None,
            },
            stored: stored_views(self.stored@),
        }
    }
}

impl TagState {
    /// A state without tags.
    pub fn new() -> (s: Self)
        ensures
            s@.listening is None,
            s@.stored.len() == 0,
            s@.wf(),
    {
        let s = Self { listening: None, stored: Vec::new() };
        assert(s@.stored =~= Seq::empty());
        s
    }

    /// Create a tag that waits for the next output of a directive.
    ///
    /// This fails, and changes nothing, while another tag is listening or
    /// where the name is ambiguous with that of a stored tag.
    pub fn create(&mut self, tag: &str) -> (r: Result<(), TagStateError>)
        requires
            old(self)@.wf(),
        ensures
            r is Ok <==> old(self)@.can_create(tag@),
            r is Ok ==> final(self)@ == (TagStateView { listening: Some(tag@), ..old(self)@ }),
            r is Err ==> final(self)@ == old(self)@,
            final(self)@.wf(),
    {
        if self.listening.is_some() {
            return Err(TagStateError);
        }
        let mut i: usize = 0;
        while i < self.stored.len()
            invariant
                i <= self.stored.len(),
                *self == *old(self),
                self@.wf(),
                forall|j: int| 0 <= j < i ==> !ambiguous(#[trigger] self@.stored[j].0, tag@),
            decreases self.stored.len() - i,
        {
            let k = self.stored[i].name.as_str();
            if starts_with(k, tag) || starts_with(tag, k) {
                assert(ambiguous(self@.stored[i as int].0, tag@));
                return Err(TagStateError);
            }
            i += 1;
        }
        assert forall|j: int| 0 <= j < self@.stored.len() implies !ambiguous(
            tag@,
            #[trigger] self@.stored[j].0,
        ) by {
            assert(!ambiguous(self@.stored[j].0, tag@));
        }
        self.listening = Some(String::from_str(tag));
        Ok(())
    }

    /// Store content under the tag that is listening, if one is.
    pub fn try_store(&mut self, content: &str) -> (r: Result<(), ()>)
        requires
            old(self)@.wf(),
        ensures
            r is Ok <==> old(self)@.listening is Some,
            r is Ok ==> final(self)@ == (TagStateView {
                listening: None,
                stored: old(self)@.stored.push((old(self)@.listening->0, content@)),
            }),
            r is Err ==> final(self)@ == old(self)@,
            final(self)@.wf(),
    {
        let ghost before = self@;
        match self.listening.take() {
            Some(tag) => {
                self.stored.push(StoredTag { name: tag, content: String::from_str(content) });
                assert(self@.stored =~= before.stored.push((tag@, content@)));
                assert forall|i: int, j: int| 0 <= i < j < self@.stored.len() implies !ambiguous(
                    #[trigger] self@.stored[i].0,
                    #[trigger] self@.stored[j].0,
                ) by {
                    if j == before.stored.len() {
                        assert(!ambiguous(tag@, before.stored[i].0));
                    }
                }
                Ok(())
            },
            None => Err(()),
        }
    }

    /// Whether a tag is listening or stored.
    pub fn has_tags(&self) -> (b: bool)
        ensures
            b == (self@.listening is Some || self@.stored.len() > 0),
    {
        self.listening.is_some() || self.stored.len() > 0
    }

    /// The name of the tag that is listening.
    pub fn listening(&self) -> (r: Option<String>)
        ensures
            match r {
                Some(s) => self@.listening == Some(s@),
                None => self@.listening is None,
            },
    {
        match &self.listening {
            Some(s) => Some(s.clone()),
            None => None,
        }
    }

    /// How many tags are stored.
    pub fn stored_len(&self) -> (n: usize)
        ensures
            n == self@.stored.len(),
    {
        self.stored.len()
    }

    /// The content stored under a name.
    pub fn stored_get(&self, name: &str) -> (r: Option<String>)
        ensures
            match r {
                Some(s) => exists|i: int|
                    0 <= i < self@.stored.len() && self@.stored[i] == (name@, s@),
                None => forall|i: int|
                    0 <= i < self@.stored.len() ==> (#[trigger] self@.stored[i]).0 != name@,
            },
    {
        let mut i: usize = 0;
        while i < self.stored.len()
            invariant
                i <= self.stored.len(),
                forall|j: int| 0 <= j < i ==> (#[trigger] self@.stored[j]).0 != name@,
            decreases self.stored.len() - i,
        {
            if crate::text::str_eq(self.stored[i].name.as_str(), name) {
                let s = self.stored[i].content.clone();
                assert(self@.stored[i as int] == (name@, s@));
                return Some(s);
            }
            i += 1;
        }
        None
    }

    /// The stored tag with the earliest place at or after `from`, and its place.
    fn next_tag(&self, text: &str, from: usize) -> (r: Option<(usize, usize)>)
        ensures
            match r {
                Some((j, i)) => {
                    &&& self@.next_tag(text@, from as int, self@.stored.len() as int) == Some(
                        j as int,
                    )
                    &&& j < self@.stored.len()
                    &&& self@.place(text@, from as int, j as int) == Some(i as int)
                    &&& i + self@.stored[j as int].0.len() <= text@.len()
                },
                None => self@.next_tag(text@, from as int, self@.stored.len() as int) is None,
            },
    {
        let mut best: Option<(usize, usize)> = None;
        let mut n: usize = 0;
        while n < self.stored.len()
            invariant
                n <= self.stored.len(),
                match best {
                    Some((j, i)) => {
                        &&& self@.next_tag(text@, from as int, n as int) == Some(j as int)
                        &&& j < n
                        &&& self@.place(text@, from as int, j as int) == Some(i as int)
                        &&& i + self@.stored[j as int].0.len() <= text@.len()
                    },
                    None => self@.next_tag(text@, from as int, n as int) is None,
                },
            decreases self.stored.len() - n,
        {
            match find(text, self.stored[n].name.as_str()) {
                Some(i) => {
                    if i >= from {
                        match best {
                            Some((_, at)) => {
                                if i < at {
                                    best = Some((n, i));
                                }
                            },
                            None => {
                                best = Some((n, i));
                            },
                        }
                    }
                },
                None => {},
            }
            n += 1;
        }
        best
    }

    /// Put the stored tags into a line.
    ///
    /// Each tag whose name stands in the line is put in at the first place
    /// where it stands, earliest first, unless that place lies in a name
    /// that was replaced before it. A tag that was put in is no longer
    /// stored. The line ends with `line_ending`.
    pub fn inject_tags(&mut self, output: &str, line_ending: &str) -> (r: String)
        requires
            old(self)@.wf(),
        ensures
            (r@, final(self)@.stored) == old(self)@.inject(output@, line_ending@),
            final(self)@.listening == old(self)@.listening,
            final(self)@.wf(),
    {
        let n = output.unicode_len();
        let mut injected_output = String::new();
        let mut last_end: usize = 0;
        let ghost start = self@;
        assert(injected_output@ + start.inject_from(output@, line_ending@, 0).0
            =~= start.inject_from(output@, line_ending@, 0).0);
        loop
            invariant
                last_end <= n == output@.len(),
                self@.wf(),
                self@.listening == start.listening,
                start.inject_from(output@, line_ending@, 0) == (
                    injected_output@ + self@.inject_from(
                        output@,
                        line_ending@,
                        last_end as int,
                    ).0,
                    self@.inject_from(output@, line_ending@, last_end as int).1,
                ),
            ensures
                last_end <= n == output@.len(),
                self@.wf(),
                self@.listening == start.listening,
                start.inject_from(output@, line_ending@, 0) == (
                    injected_output@ + output@.skip(last_end as int),
                    self@.stored,
                ),
            decreases self.stored.len(),
        {
            let (j, i) = match self.next_tag(output, last_end) {
                Some(x) => x,
                None => {
                    break ;
                },
            };
            let ghost before = self@;
            let ghost text_before = injected_output@;
            injected_output.append(output.substring_char(last_end, i));
            let value = self.stored[j].content.as_str().replace_line_ending(line_ending, false);
            injected_output.append(value.as_str());
            let next_end = i + self.stored[j].name.as_str().unicode_len();
            self.stored.remove(j);
            proof {
                let after = TagStateView { stored: before.stored.remove(j as int), ..before };
                assert(self@.stored =~= before.stored.remove(j as int));
                assert(self@ == after);
                assert forall|a: int, b: int| 0 <= a < b < self@.stored.len() implies !ambiguous(
                    #[trigger] self@.stored[a].0,
                    #[trigger] self@.stored[b].0,
                ) by {
                    let a0 = if a < j { a } else { a + 1 };
                    let b0 = if b < j { b } else { b + 1 };
                    assert(!ambiguous(before.stored[a0].0, before.stored[b0].0));
                }
                assert forall|a: int| 0 <= a < self@.stored.len() implies !(self@.listening is Some
                    && ambiguous(self@.listening->0, #[trigger] self@.stored[a].0)) by {
                    let a0 = if a < j { a } else { a + 1 };
                    assert(before.stored[a0].0 == self@.stored[a].0);
                }
                let rest = after.inject_from(output@, line_ending@, next_end as int);
                assert(before.inject_from(output@, line_ending@, last_end as int).0
                    == output@.subrange(last_end as int, i as int) + value@ + rest.0);
                assert(text_before + (output@.subrange(last_end as int, i as int) + value@
                    + rest.0) =~= injected_output@ + rest.0);
            }
            last_end = next_end;
        }
        injected_output.append(output.substring_char(last_end, n));
        injected_output.append(line_ending);
        proof {
            assert(output@.subrange(last_end as int, n as int) =~= output@.skip(last_end as int));
        }
        injected_output
    }
}

/// The tag that [`TagStateView::next_tag`] gives is one of the first `n`, has
/// a place, and none of the first `n` has an earlier one.
pub proof fn lemma_next_tag(s: TagStateView, text: Seq<char>, from: int, n: int)
    requires
        0 <= n <= s.stored.len(),
    ensures
        match s.next_tag(text, from, n) {
            Some(j) => {
                &&& 0 <= j < n
                &&& s.place(text, from, j) is Some
                &&& forall|k: int|
                    0 <= k < n && s.place(text, from, k) is Some ==> s.place(text, from, j)->0
                        <= (#[trigger] s.place(text, from, k))->0
            },
            None => forall|k: int| 0 <= k < n ==> #[trigger] s.place(text, from, k) is None,
        },
    decreases n,
{
    if n > 0 {
        lemma_next_tag(s, text, from, n - 1);
    }
}

/// Putting tags in stores nothing: every tag that is left was stored before.
pub proof fn lemma_inject_keeps_only_stored(
    s: TagStateView,
    text: Seq<char>,
    line_ending: Seq<char>,
    from: int,
)
    ensures
        forall|x: (Seq<char>, Seq<char>)|
            s.inject_from(text, line_ending, from).1.contains(x) ==> s.stored.contains(x),
    decreases s.stored.len(),
{
    match s.next_tag(text, from, s.stored.len() as int) {
        Some(j) => {
            if 0 <= j < s.stored.len() && s.place(text, from, j) is Some {
                let i = s.place(text, from, j)->0;
                let t = TagStateView { stored: s.stored.remove(j), ..s };
                lemma_inject_keeps_only_stored(t, text, line_ending, i + s.stored[j].0.len());
                assert forall|x: (Seq<char>, Seq<char>)|
                    s.inject_from(text, line_ending, from).1.contains(x) implies s.stored.contains(
                    x,
                ) by {
                    assert(t.stored.contains(x));
                    let k = choose|k: int| 0 <= k < t.stored.len() && t.stored[k] == x;
                    let k0 = if k < j { k } else { k + 1 };
                    assert(s.stored[k0] == x);
                }
            }
        },
        None => {},
    }
}

/// A tag is used once: the tag that is put in first is no longer stored
/// afterwards, under any content, so its name is not replaced again.
pub proof fn lemma_tag_is_single_use(
    s: TagStateView,
    text: Seq<char>,
    line_ending: Seq<char>,
    j: int,
)
    requires
        s.wf(),
        s.next_tag(text, 0, s.stored.len() as int) == Some(j),
    ensures
        0 <= j < s.stored.len(),
        forall|k: int|
            0 <= k < s.inject(text, line_ending).1.len() ==> (#[trigger] s.inject(
                text,
                line_ending,
            ).1[k]).0 != s.stored[j].0,
{
    lemma_next_tag(s, text, 0, s.stored.len() as int);
    let i = s.place(text, 0, j)->0;
    let t = TagStateView { stored: s.stored.remove(j), ..s };
    let rest = s.inject(text, line_ending).1;
    assert(rest == t.inject_from(text, line_ending, i + s.stored[j].0.len()).1);
    lemma_inject_keeps_only_stored(t, text, line_ending, i + s.stored[j].0.len());
    assert forall|k: int| 0 <= k < rest.len() implies (#[trigger] rest[k]).0 != s.stored[j].0 by {
        assert(rest.contains(rest[k]));
        assert(t.stored.contains(rest[k]));
        let m = choose|m: int| 0 <= m < t.stored.len() && t.stored[m] == rest[k];
        let m0 = if m < j { m } else { m + 1 };
        assert(s.stored[m0] == rest[k]);
        let name = s.stored[j].0;
        if s.stored[m0].0 == name {
            assert(name.subrange(0, name.len() as int) =~= name);
            if m0 < j {
                assert(ambiguous(s.stored[m0].0, s.stored[j].0));
            } else {
                assert(ambiguous(s.stored[j].0, s.stored[m0].0));
            }
        }
    }
}

/// A line in which no stored name stands is written as it is, and every tag
/// stays stored.
pub proof fn lemma_inject_without_tags(s: TagStateView, text: Seq<char>, line_ending: Seq<char>)
    requires
        forall|j: int| 0 <= j < s.stored.len() ==> spec_find(text, #[trigger] s.stored[j].0) is None,
    ensures
        s.inject(text, line_ending) == (text + line_ending, s.stored),
{
    lemma_next_tag(s, text, 0, s.stored.len() as int);
    match s.next_tag(text, 0, s.stored.len() as int) {
        Some(j) => {
            assert(spec_find(text, s.stored[j].0) is None);
        },
        None => {},
    }
    assert(text.skip(0) =~= text);
}

} // verus!
