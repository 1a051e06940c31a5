//! The fonts of a bundle: an xz-compressed tar archive, walked entry by
//! entry.

use crate::error::{ExtractError, ExtractErrorView};
use crate::path::{
    file_name, font_name, is_font_name, lemma_file_name, path_file_name, SEPARATOR,
};
use vstd::prelude::*;

verus! {

/// One step of a walk through an archive.
pub enum Step {
    /// An entry, with the path it is stored under and its bytes.
    Member { path: Seq<u8>, content: Seq<u8> },
    /// The archive cannot be read at this place.
    Broken { reason: Seq<char> },
}

/// A font taken out of a bundle.
#[derive(Debug, PartialEq, Eq)]
pub struct FontFile {
    /// The file name, without any directory.
    pub name: Vec<u8>,
    /// The bytes of the file.
    pub content: Vec<u8>,
}

/// A `FontFile` as sequences of bytes.
pub struct FontFileView {
    pub name: Seq<u8>,
    pub content: Seq<u8>,
}

impl View for FontFile {
    type V = FontFileView;

    open spec fn view(&self) -> FontFileView {
        FontFileView { name: self.name@, content: self.content@ }
    }
}

/// What a bundle gave: the fonts found before the walk ended, and why it
/// ended early if it did.
#[derive(Debug, PartialEq, Eq)]
pub struct Extraction {
    pub files: Vec<FontFile>,
    pub failure: Option<ExtractError>,
}

/// An `Extraction` over views.
pub struct ExtractionView {
    pub files: Seq<FontFileView>,
    pub failure: Option<ExtractErrorView>,
}

impl View for Extraction {
    type V = ExtractionView;

    open spec fn view(&self) -> ExtractionView {
        ExtractionView {
            files: self.files@.map_values(|f: FontFile| f@),
            failure: match self.failure {
                Some(error) => Some(error@),
                None => None,
            },
        }
    }
}

/// What is done with one entry.
pub enum Verdict {
    /// It is a font, to be written under this name.
    Font(FontFileView),
    /// It is no font.
    Skip,
    /// Its path has no file name: the walk ends.
    Reject,
}

/// What is done with the entry stored under `path`.
pub open spec fn verdict(path: Seq<u8>, content: Seq<u8>) -> Verdict {
    match file_name(path) {
        None => Verdict::Reject,
        Some(name) => if is_font_name(name) {
            Verdict::Font(FontFileView { name, content })
        } else {
            Verdict::Skip
        },
    }
}

/// What a walk gives: the fonts among its entries, in order, up to the first
/// step that is broken or whose path has no file name.
pub open spec fn fonts_of(steps: Seq<Step>) -> ExtractionView
    decreases steps.len(),
{
    if steps.len() == 0 {
        ExtractionView { files: Seq::empty(), failure: None }
    } else {
        match steps[0] {
            Step::Broken { reason } => ExtractionView {
                files: Seq::empty(),
                failure: Some(ExtractErrorView::InvalidArchive(reason)),
            },
            Step::Member { path, content } => match verdict(path, content) {
                Verdict::Reject => ExtractionView {
                    files: Seq::empty(),
                    failure: Some(ExtractErrorView::MissingFileName),
                },
                Verdict::Skip => fonts_of(steps.drop_first()),
                Verdict::Font(file) => ExtractionView {
                    files: seq![file] + fonts_of(steps.drop_first()).files,
                    failure: fonts_of(steps.drop_first()).failure,
                },
            },
        }
    }
}

/// Whether a step lets the walk go on: it is an entry whose path has a file
/// name.
pub open spec fn passable(step: Step) -> bool {
    match step {
        Step::Member { path, .. } => file_name(path).is_some(),
        Step::Broken { .. } => false,
    }
}

/// A walk ends without an error exactly when every one of its steps lets it
/// go on.
pub proof fn lemma_walk_succeeds(steps: Seq<Step>)
    ensures
        fonts_of(steps).failure.is_none() <==> forall|i: int|
            0 <= i < steps.len() ==> passable(#[trigger] steps[i]),
    decreases steps.len(),
{
    if steps.len() > 0 {
        let rest = steps.drop_first();
        lemma_walk_succeeds(rest);
        if passable(steps[0]) {
            if forall|i: int| 0 <= i < rest.len() ==> passable(#[trigger] rest[i]) {
                assert forall|i: int| 0 <= i < steps.len() implies passable(
                    #[trigger] steps[i],
                ) by {
                    if i > 0 {
                        assert(steps[i] == rest[i - 1]);
                    }
                }
            } else {
                let i = choose|i: int| 0 <= i < rest.len() && !passable(#[trigger] rest[i]);
                assert(steps[i + 1] == rest[i]);
            }
        }
    }
}

/// Every font that a walk gives has a font's file name, and that name holds
/// no separator: it names a file in the directory it is written to.
pub proof fn lemma_fonts_are_flat(steps: Seq<Step>)
    ensures
        forall|i: int|
            0 <= i < fonts_of(steps).files.len() ==> {
                let name = (#[trigger] fonts_of(steps).files[i]).name;
                &&& is_font_name(name)
                &&& forall|j: int| 0 <= j < name.len() ==> name[j] != SEPARATOR
            },
    decreases steps.len(),
{
    if steps.len() > 0 {
        let rest = steps.drop_first();
        lemma_fonts_are_flat(rest);
        match steps[0] {
            Step::Member { path, content } => {
                lemma_file_name(path);
                match verdict(path, content) {
                    Verdict::Font(file) => {
                        assert forall|i: int| 0 <= i < fonts_of(steps).files.len() implies {
                            let name = (#[trigger] fonts_of(steps).files[i]).name;
                            &&& is_font_name(name)
                            &&& forall|j: int| 0 <= j < name.len() ==> name[j] != SEPARATOR
                        } by {
                            if i > 0 {
                                assert(fonts_of(steps).files[i] == fonts_of(rest).files[i - 1]);
                            }
                        }
                    },
                    _ => {},
                }
            },
            _ => {},
        }
    }
}

/// Decides what is done with one entry of an archive: `Ok(Some(..))` for a
/// font, with its file name, `Ok(None)` for an entry that is skipped, and an
/// error for a path without a file name.
pub fn select_font(path: &[u8], content: Vec<u8>) -> (selected: Result<Option<FontFile>, ExtractError>)
    ensures
        match selected {
            Ok(Some(file)) => verdict(path@, content@) == Verdict::Font(file@),
            Ok(None) => verdict(path@, content@) == Verdict::Skip,
            Err(error) => verdict(path@, content@) == Verdict::Reject && error
                == ExtractError::MissingFileName,
        },
{
    match path_file_name(path) {
        None => Err(ExtractError::MissingFileName),
        Some(name) => {
            if font_name(name.as_slice()) {
                Ok(Some(FontFile { name, content }))
            } else {
                Ok(None)
            }
        },
    }
}

/// An xz-compressed tar archive, opened on the bytes that hold it. It keeps
/// a `tar::Archive` over an `xz2::read::XzDecoder`.
#[verifier::external_body]
pub struct Bundle<'d> {
    inner: tar::Archive<xz2::read::XzDecoder<&'d [u8]>>,
}

/// A walk through the entries of a `Bundle`. It keeps the `tar::Entries` of
/// the archive.
#[verifier::external_body]
pub struct Members<'a, 'd> {
    inner: tar::Entries<'a, xz2::read::XzDecoder<&'d [u8]>>,
}

/// The steps of a walk through the archive that `data` holds: what
/// decompressing `data` and reading it as a tar archive gives, entry by
/// entry.
pub uninterp spec fn archive_steps(data: Seq<u8>) -> Seq<Step>;

/// The steps that a walk through `bundle` gives.
pub uninterp spec fn unread(bundle: Bundle) -> Seq<Step>;

/// Whether nothing has been read from `bundle` yet.
pub uninterp spec fn untouched(bundle: Bundle) -> bool;

/// The steps that `members` has still to give.
pub uninterp spec fn pending(members: Members) -> Seq<Step>;

/// A step as the walk hands it out.
pub open spec fn step_of(item: Result<(Vec<u8>, Vec<u8>), String>) -> Step {
    match item {
        Ok((path, content)) => Step::Member { path: path@, content: content@ },
        Err(reason) => Step::Broken { reason: reason@ },
    }
}

/// Calls `xz2::read::XzDecoder::new` on the bytes and `tar::Archive::new` on
/// the decoder. Neither reads anything: the archive is at its start, and a
/// walk through it gives the steps of `data`.
#[verifier::external_body]
fn open_bundle<'d>(data: &'d [u8]) -> (bundle: Bundle<'d>)
    ensures
        untouched(bundle),
        unread(bundle) == archive_steps(data@),
{
    Bundle { inner: tar::Archive::new(xz2::read::XzDecoder::new(data)) }
}

/// Calls `tar::Archive::entries`, which refuses only an archive that has
/// been read from. The walk it returns has all steps of the bundle before
/// it.
#[verifier::external_body]
fn bundle_members<'a, 'd>(bundle: &'a mut Bundle<'d>) -> (members: Result<Members<'a, 'd>, String>)
    ensures
        untouched(*old(bundle)) ==> members is Ok,
        members matches Ok(walk) ==> pending(walk) == unread(*old(bundle)),
{
    match bundle.inner.entries() {
        Ok(entries) => Ok(Members { inner: entries }),
        Err(error) => Err(error.to_string()),
    }
}

/// Calls `next` on the `tar::Entries`, and for an entry `path_bytes` and
/// `read_to_end`: the entry is handed out as its path and its bytes, an
/// error of the walk or of the read as its message. `None` comes at the end
/// of the walk; any other answer is the first of the pending steps, which
/// then leaves them.
#[verifier::external_body]
fn next_member(members: &mut Members) -> (next: Option<Result<(Vec<u8>, Vec<u8>), String>>)
    ensures
        match next {
            None => pending(*old(members)).len() == 0,
            Some(item) => pending(*old(members)).len() > 0 && step_of(item) == pending(
                *old(members),
            )[0] && pending(*final(members)) == pending(*old(members)).drop_first(),
        },
{
    let mut entry = match members.inner.next()? {
        Ok(entry) => entry,
        Err(error) => return Some(Err(error.to_string())),
    };
    let path = entry.path_bytes().into_owned();
    let mut content = Vec::new();
    match std::io::Read::read_to_end(&mut entry, &mut content) {
        Ok(_) => Some(Ok((path, content))),
        Err(error) => Some(Err(error.to_string())),
    }
}

/// `fonts_of`, with the fonts of the steps already taken in front.
proof fn lemma_fonts_of_step(steps: Seq<Step>)
    requires
        steps.len() > 0,
    ensures
        match steps[0] {
            Step::Broken { reason } => fonts_of(steps) == (ExtractionView {
                files: Seq::empty(),
                failure: Some(ExtractErrorView::InvalidArchive(reason)),
            }),
            Step::Member { path, content } => match verdict(path, content) {
                Verdict::Reject => fonts_of(steps) == (ExtractionView {
                    files: Seq::empty(),
                    failure: Some(ExtractErrorView::MissingFileName),
                }),
                Verdict::Skip => fonts_of(steps) == fonts_of(steps.drop_first()),
                Verdict::Font(file) => fonts_of(steps) == (ExtractionView {
                    files: seq![file] + fonts_of(steps.drop_first()).files,
                    failure: fonts_of(steps.drop_first()).failure,
                }),
            },
        },
{
}

/// Takes the fonts out of a bundle. The archive is walked from its start;
/// each entry whose file name has the extension `otf` or `ttf` is kept,
/// under that file name alone, and every other entry is passed over. The
/// walk ends early at the first place where the archive cannot be read and
/// at the first entry whose path has no file name: the fonts found until
/// then are returned together with the error.
pub fn extract_fonts(data: &[u8]) -> (extraction: Extraction)
    ensures
        extraction@ == fonts_of(archive_steps(data@)),
{
    let mut bundle = open_bundle(data);
    let mut files: Vec<FontFile> = Vec::new();
    let ghost all = archive_steps(data@);
    match bundle_members(&mut bundle) {
        Err(reason) => {
            proof {
                assert(false);
            }
            Extraction { files, failure: Some(ExtractError::InvalidArchive(reason)) }
        },
        Ok(mut members) => {
            assert(files@.map_values(|f: FontFile| f@) =~= Seq::empty());
            loop
                invariant
                    all == archive_steps(data@),
                    fonts_of(all).files == files@.map_values(|f: FontFile| f@) + fonts_of(
                        pending(members),
                    ).files,
                    fonts_of(all).failure == fonts_of(pending(members)).failure,
                decreases pending(members).len(),
            {
                let ghost before = pending(members);
                let ghost found = files@.map_values(|f: FontFile| f@);
                match next_member(&mut members) {
                    None => {
                        assert(found + Seq::<FontFileView>::empty() =~= found);
                        return Extraction { files, failure: None };
                    },
                    Some(Err(reason)) => {
                        proof {
                            lemma_fonts_of_step(before);
                            assert(found + Seq::<FontFileView>::empty() =~= found);
                        }
                        return Extraction {
                            files,
                            failure: Some(ExtractError::InvalidArchive(reason)),
                        };
                    },
                    Some(Ok((path, content))) => {
                        proof {
                            lemma_fonts_of_step(before);
                        }
                        match select_font(path.as_slice(), content) {
                            Err(error) => {
                                assert(found + Seq::<FontFileView>::empty() =~= found);
                                return Extraction { files, failure: Some(error) };
                            },
                            Ok(None) => {},
                            Ok(Some(file)) => {
                                let ghost rest = fonts_of(before.drop_first()).files;
                                files.push(file);
                                assert(files@.map_values(|f: FontFile| f@) =~= found.push(file@));
                                assert(found + (seq![file@] + rest) =~= found.push(file@) + rest);
                            },
                        }
                    },
                }
            }
        },
    }
}

} // verus!
