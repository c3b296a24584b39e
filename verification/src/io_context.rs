//! Where the output of a file goes.
//!
//! What is done with the text that the preprocessor hands out depends on the
//! mode: it is written, kept until the end, dropped, or compared with the
//! output that is there. The files themselves are read and written by the
//! caller, and handed in and out as plain values.
use crate::config::Mode;
use crate::error::PpErrorKind;
use crate::text::str_eq;
use vstd::prelude::*;
use vstd::string::StringSliceAdditionalSpecFns;

verus! {

/// What is to be done to the output file before anything is written.
#[derive(Debug, PartialEq, Eq, Clone, Copy, Structural)]
pub enum OpenAction {
    /// It is created, or emptied if it exists.
    Create,
    /// It is left as it is.
    Keep,
    /// It is removed if it exists.
    Remove,
}

/// What is to be done to the file of a temp directive.
#[derive(Debug, PartialEq, Eq, Clone, Copy, Structural)]
pub enum TempAction {
    /// The content is written to it.
    Write,
    /// Nothing.
    Skip,
    /// It is removed.
    Remove,
}

/// Output context, which depends on the mode.
#[derive(Debug)]
enum CtxOut {
    /// Build mode: the text goes to the output file as it comes.
    Build,
    /// Build mode in memory: the text is kept.
    InMemoryBuild { out: String },
    /// Clean mode: the text is dropped.
    Clean,
    /// Verify mode: the text is compared with what the output file holds,
    /// of which `rem` bytes are still to come.
    Verify { expected: Vec<u8>, rem: usize },
}

/// A sink as plain values.
pub enum CtxOutView {
    Build,
    InMemoryBuild { out: Seq<char> },
    Clean,
    Verify { expected: Seq<u8>, rem: nat },
}

/// What is left of `expected` to compare once `bytes` were compared with
/// what came after the first `expected.len() - rem` bytes, if they are the same.
pub open spec fn spec_verify_write(expected: Seq<u8>, rem: nat, bytes: Seq<u8>) -> Option<nat> {
    if bytes.len() <= rem <= expected.len() && expected.subrange(
        expected.len() - rem,
        expected.len() - rem + bytes.len(),
    ) == bytes {
        Some((rem - bytes.len()) as nat)
    } else {
        None
    }
}

impl CtxOutView {
    /// The sink of a mode. `existing` is what the output file holds, if it exists.
    pub open spec fn open(mode: Mode, existing: Option<Seq<u8>>) -> Option<CtxOutView> {
        match mode {
            Mode::Build => Some(CtxOutView::Build),
            Mode::InMemoryBuild => Some(CtxOutView::InMemoryBuild { out: Seq::empty() }),
            Mode::Clean => Some(CtxOutView::Clean),
            Mode::Verify => match existing {
                Some(expected) => Some(CtxOutView::Verify { expected, rem: expected.len() }),
                None => None,
            },
        }
    }

    /// The sink after text was written to it, `None` where the text is not
    /// what the output file holds at this place.
    pub open spec fn write(self, text: Seq<char>) -> Option<CtxOutView> {
        match self {
            CtxOutView::Build => Some(self),
            CtxOutView::InMemoryBuild { out } => Some(CtxOutView::InMemoryBuild { out: out + text }),
            CtxOutView::Clean => Some(self),
            CtxOutView::Verify { expected, rem } => match spec_verify_write(
                expected,
                rem,
                vstd::utf8::encode_utf8(text),
            ) {
                Some(left) => Some(CtxOutView::Verify { expected, rem: left }),
                None => None,
            },
        }
    }

    /// A sink that compares has not more to come than the file holds.
    pub open spec fn wf(self) -> bool {
        match self {
            CtxOutView::Verify { expected, rem } => rem <= expected.len(),
            _ => true,
        }
    }
}

/// Context for processing a txtpp file: the sink of its output.
#[derive(Debug)]
pub struct IOCtx {
    out: CtxOut,
}

impl View for IOCtx {
    type V = CtxOutView;

    closed spec fn view(&self) -> CtxOutView {
        match self.out {
            CtxOut::Build => CtxOutView::Build,
            CtxOut::InMemoryBuild { out } => CtxOutView::InMemoryBuild { out: out@ },
            CtxOut::Clean => CtxOutView::Clean,
            CtxOut::Verify { expected, rem } => CtxOutView::Verify {
                expected: expected@,
                rem: rem as nat,
            },
        }
    }
}

/// Whether `bytes` stand in `expected` at `at`.
fn bytes_match(expected: &Vec<u8>, at: usize, bytes: &[u8]) -> (b: bool)
    requires
        at + bytes@.len() <= expected@.len(),
    ensures
        b == (expected@.subrange(at as int, at + bytes@.len()) == bytes@),
{
    let n = expected.len();
    let mut i: usize = 0;
    while i < bytes.len()
        invariant
            i <= bytes@.len(),
            at + bytes@.len() <= expected@.len() == n,
            forall|j: int| 0 <= j < i ==> expected@[at + j] == bytes@[j],
        decreases bytes@.len() - i,
    {
        if expected[at + i] != bytes[i] {
            assert(expected@.subrange(at as int, at + bytes@.len())[i as int] != bytes@[i as int]);
            return false;
        }
        i += 1;
    }
    assert(expected@.subrange(at as int, at + bytes@.len()) =~= bytes@);
    true
}

impl IOCtx {
    /// Create a new IO context for the mode.
    ///
    /// `existing` is what the output file holds, if it exists. In verify
    /// mode it has to exist. What is to be done to the output file first
    /// comes with the context.
    pub fn new(mode: Mode, existing: Option<Vec<u8>>) -> (r: Result<(Self, OpenAction), PpErrorKind>)
        ensures
            match r {
                Ok((ctx, action)) => CtxOutView::open(
                    mode,
                    match existing {
                        Some(e) => Some(e@),
                        None => None,
                    },
                ) == Some(ctx@) && ctx@.wf() && action == match mode {
                    Mode::Build => OpenAction::Create,
                    Mode::Clean => OpenAction::Remove,
                    _ => OpenAction::Keep,
                },
                Err(e) => mode == Mode::Verify && existing is None && e == PpErrorKind::VerifyOutput,
            },
    {
        match mode {
            Mode::Build => Ok((Self { out: CtxOut::Build }, OpenAction::Create)),
            Mode::InMemoryBuild => Ok(
                (Self { out: CtxOut::InMemoryBuild { out: String::new() } }, OpenAction::Keep),
            ),
            Mode::Clean => Ok((Self { out: CtxOut::Clean }, OpenAction::Remove)),
            Mode::Verify => match existing {
                Some(expected) => {
                    let rem = expected.len();
                    Ok((Self { out: CtxOut::Verify { expected, rem } }, OpenAction::Keep))
                },
                None => Err(PpErrorKind::VerifyOutput),
            },
        }
    }

    /// Write to output.
    ///
    /// The output string should already have line endings resolved. Returns
    /// whether the text is to be added to the output file as it is. In
    /// verify mode this fails where the text is not what the file holds next.
    pub fn write_output(&mut self, output: &str) -> (r: Result<bool, PpErrorKind>)
        requires
            old(self)@.wf(),
        ensures
            match r {
                Ok(append) => old(self)@.write(output@) == Some(final(self)@) && final(self)@.wf()
                    && append == (old(self)@ is Build),
                Err(e) => old(self)@.write(output@) is None && e == PpErrorKind::VerifyOutput
                    && final(self)@ == old(self)@,
            },
    {
        match &mut self.out {
            CtxOut::Build => Ok(true),
            CtxOut::InMemoryBuild { out } => {
                out.append(output);
                Ok(false)
            },
            CtxOut::Clean => Ok(false),
            CtxOut::Verify { expected, rem } => {
                let bytes = output.as_bytes();
                if *rem < bytes.len() {
                    return Err(PpErrorKind::VerifyOutput);
                }
                let at = expected.len() - *rem;
                if !bytes_match(expected, at, bytes) {
                    return Err(PpErrorKind::VerifyOutput);
                }
                *rem = *rem - bytes.len();
                Ok(false)
            },
        }
    }

    /// Finish
    ///
    /// `current` is what the output file holds now, if it exists. Returns
    /// the content that is to be written to it: in memory build mode the
    /// whole output, unless the file holds just that. In verify mode this
    /// fails where the file holds more than was written.
    pub fn done(self, current: Option<&str>) -> (r: Result<Option<String>, PpErrorKind>)
        ensures
            match self@ {
                CtxOutView::InMemoryBuild { out } => match r {
                    Ok(Some(s)) => s@ == out && !(current is Some && current->0@ == out),
                    Ok(None) => current is Some && current->0@ == out,
                    Err(_) => false,
                },
                CtxOutView::Verify { expected, rem } => if rem == 0 {
                    r is Ok && r->Ok_0 is None
                } else {
                    r == Err::<Option<String>, PpErrorKind>(PpErrorKind::VerifyOutput)
                },
                _ => r is Ok && r->Ok_0 is None,
            },
    {
        match self.out {
            CtxOut::Build => Ok(None),
            CtxOut::InMemoryBuild { out } => {
                let same = match current {
                    Some(c) => str_eq(c, out.as_str()),
                    None => false,
                };
                if same {
                    Ok(None)
                } else {
                    Ok(Some(out))
                }
            },
            CtxOut::Clean => Ok(None),
            CtxOut::Verify { expected, rem } => {
                if rem != 0 {
                    return Err(PpErrorKind::VerifyOutput);
                }
                Ok(None)
            },
        }
    }

    /// What is to be done to the file of a temp directive.
    ///
    /// `exists` and `is_dir` say whether the path exists and is a
    /// directory, `current` is what the file holds if it is one that can be
    /// read. When cleaning, a file that exists is removed. Else a directory
    /// is refused, a file that holds the content already is left alone, and
    /// every other is written.
    pub fn write_temp_file(
        &self,
        exists: bool,
        is_dir: bool,
        current: Option<&str>,
        contents: &str,
    ) -> (r: Result<TempAction, PpErrorKind>)
        ensures
            r == spec_temp_action(
                self@ is Clean,
                exists,
                is_dir,
                match current {
                    Some(c) => Some(c@),
                    None => None,
                },
                contents@,
            ),
    {
        if let CtxOut::Clean = self.out {
            return Ok(
                if exists {
                    TempAction::Remove
                } else {
                    TempAction::Skip
                },
            );
        }
        if is_dir {
            return Err(PpErrorKind::WriteFile);
        }
        // Check if the temp file already exists and has the same content
        if exists {
            match current {
                Some(c) => {
                    if str_eq(c, contents) {
                        return Ok(TempAction::Skip);
                    }
                },
                None => {
                    return Err(PpErrorKind::ReadFile);
                },
            }
        }
        Ok(TempAction::Write)
    }
}

/// What is to be done to the file of a temp directive, see [`IOCtx::write_temp_file`].
pub open spec fn spec_temp_action(
    cleaning: bool,
    exists: bool,
    is_dir: bool,
    current: Option<Seq<char>>,
    contents: Seq<char>,
) -> Result<TempAction, PpErrorKind> {
    if cleaning {
        Ok(
            if exists {
                TempAction::Remove
            } else {
                TempAction::Skip
            },
        )
    } else if is_dir {
        Err(PpErrorKind::WriteFile)
    } else if exists {
        match current {
            Some(c) => if c == contents {
                Ok(TempAction::Skip)
            } else {
                Ok(TempAction::Write)
            },
            None => Err(PpErrorKind::ReadFile),
        }
    } else {
        Ok(TempAction::Write)
    }
}

/// The bytes that a build writes: those of each text, one after the other.
pub open spec fn built(chunks: Seq<Seq<u8>>) -> Seq<u8>
    decreases chunks.len(),
{
    if chunks.len() == 0 {
        Seq::empty()
    } else {
        built(chunks.drop_last()) + chunks.last()
    }
}

/// What is left to compare of `expected` once the texts were compared with
/// it one after the other, `None` where one of them was not what it holds.
pub open spec fn verified(expected: Seq<u8>, chunks: Seq<Seq<u8>>) -> Option<nat>
    decreases chunks.len(),
{
    if chunks.len() == 0 {
        Some(expected.len())
    } else {
        match verified(expected, chunks.drop_last()) {
            Some(rem) => spec_verify_write(expected, rem, chunks.last()),
            None => None,
        }
    }
}

/// What was compared so far is what a build of the same texts writes.
pub proof fn lemma_verified_prefix(expected: Seq<u8>, chunks: Seq<Seq<u8>>)
    ensures
        match verified(expected, chunks) {
            Some(rem) => rem <= expected.len() && expected.take(expected.len() - rem) == built(
                chunks,
            ),
            None => true,
        },
    decreases chunks.len(),
{
    if chunks.len() == 0 {
        assert(expected.take(0) =~= Seq::empty());
    } else {
        lemma_verified_prefix(expected, chunks.drop_last());
        match verified(expected, chunks.drop_last()) {
            Some(rem) => {
                let bytes = chunks.last();
                if spec_verify_write(expected, rem, bytes) is Some {
                    let at = expected.len() - rem;
                    assert(expected.take(at + bytes.len()) =~= expected.take(at)
                        + expected.subrange(at, at + bytes.len()));
                }
            },
            None => {},
        }
    }
}

/// What a build writes, and anything after it, verifies up to there.
pub proof fn lemma_built_verifies(chunks: Seq<Seq<u8>>, rest: Seq<u8>)
    ensures
        verified(built(chunks) + rest, chunks) == Some(rest.len()),
    decreases chunks.len(),
{
    let expected = built(chunks) + rest;
    if chunks.len() > 0 {
        let bytes = chunks.last();
        let init = chunks.drop_last();
        assert(built(init) + (bytes + rest) =~= expected);
        lemma_built_verifies(init, bytes + rest);
        let rem = (bytes + rest).len();
        let at = expected.len() - rem;
        assert(at == built(init).len());
        assert(expected.subrange(at, at + bytes.len()) =~= bytes);
    } else {
        assert(built(chunks) + rest =~= rest);
    }
}

/// Verify after build succeeds, and nothing else does: the texts compare
/// with a file to its end if and only if the file holds what a build of
/// them writes.
pub proof fn lemma_verify_accepts_exactly_the_build(expected: Seq<u8>, chunks: Seq<Seq<u8>>)
    ensures
        verified(expected, chunks) == Some(0nat) <==> expected == built(chunks),
{
    lemma_verified_prefix(expected, chunks);
    if expected == built(chunks) {
        lemma_built_verifies(chunks, Seq::empty());
        assert(built(chunks) + Seq::<u8>::empty() =~= built(chunks));
    }
    if verified(expected, chunks) == Some(0nat) {
        assert(expected.take(expected.len() as int) =~= expected);
    }
}

/// The bytes of each text.
pub open spec fn encoded(texts: Seq<Seq<char>>) -> Seq<Seq<u8>> {
    Seq::new(texts.len(), |i: int| vstd::utf8::encode_utf8(texts[i]))
}

impl CtxOutView {
    /// The sink after the texts were written to it one after the other,
    /// `None` where one of them was refused.
    pub open spec fn write_all(self, texts: Seq<Seq<char>>) -> Option<CtxOutView>
        decreases texts.len(),
    {
        if texts.len() == 0 {
            Some(self)
        } else {
            match self.write_all(texts.drop_last()) {
                Some(s) => s.write(texts.last()),
                None => None,
            }
        }
    }
}

/// A sink that verifies goes on as [`verified`] says.
proof fn lemma_write_all_verifies(expected: Seq<u8>, texts: Seq<Seq<char>>)
    ensures
        (CtxOutView::Verify { expected, rem: expected.len() }).write_all(texts) == match verified(
            expected,
            encoded(texts),
        ) {
            Some(rem) => Some(CtxOutView::Verify { expected, rem }),
            None => None,
        },
    decreases texts.len(),
{
    if texts.len() > 0 {
        lemma_write_all_verifies(expected, texts.drop_last());
        assert(encoded(texts).drop_last() =~= encoded(texts.drop_last()));
        assert(encoded(texts).last() == vstd::utf8::encode_utf8(texts.last()));
    }
}

/// Build followed by verify succeeds: where the output file holds what
/// was built from the texts, a sink that verifies takes them all, and is
/// left with nothing to compare. It fails on any other file: it refuses
/// one of the texts, or is left with bytes that were not written.
pub proof fn lemma_verify_after_build(expected: Seq<u8>, texts: Seq<Seq<char>>)
    ensures
        CtxOutView::open(Mode::Verify, Some(expected)) == Some(
            CtxOutView::Verify { expected, rem: expected.len() },
        ),
        (CtxOutView::Verify { expected, rem: expected.len() }).write_all(texts) == Some(
            CtxOutView::Verify { expected, rem: 0 },
        ) <==> expected == built(encoded(texts)),
{
    lemma_write_all_verifies(expected, texts);
    lemma_verify_accepts_exactly_the_build(expected, encoded(texts));
}

} // verus!
