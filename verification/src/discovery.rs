//! Which files are candidates: the rules on file extensions, on the name of
//! the artifact that goes with an image, and on what to do with a path that
//! was named or found.
//!
//! Nothing here touches the file system. A caller answers the questions a
//! verdict asks (is it a directory? is the artifact there?) and asks again.
//! A file whose artifact exists is left out wherever it turns up, named or
//! found.

use vstd::prelude::*;
use vstd::string::*;

verus! {

/// The lower-case form of an ASCII capital; any other character unchanged.
pub open spec fn fold_case(c: char) -> char {
    if 'A' <= c <= 'Z' {
        ((c as u8) + 32) as char
    } else {
        c
    }
}

/// `text` with every ASCII capital in lower case.
pub open spec fn folded(text: Seq<char>) -> Seq<char> {
    Seq::new(text.len(), |i: int| fold_case(text[i]))
}

/// Whether `extension`, with capitals and small letters taken alike, is one
/// of `jpg`, `jpeg`, `png`, `gif`, `bmp` and `tiff`.
pub open spec fn is_image_extension(extension: Seq<char>) -> bool {
    let low = folded(extension);
    low == "jpg"@ || low == "jpeg"@ || low == "png"@ || low == "gif"@ || low == "bmp"@ || low
        == "tiff"@
}

/// The extension of the artifact that goes with a file of the given
/// extension: the extension itself, then `.bh`.
pub open spec fn artifact_extension_text(extension: Option<Seq<char>>) -> Seq<char> {
    match extension {
        Some(text) => text + ".bh"@,
        None => ".bh"@,
    }
}

/// A question about the file system that a verdict may ask.
#[derive(Clone, Copy, Debug, PartialEq, Eq, Structural)]
pub enum Probe {
    /// Is the path a directory?
    IsDirectory,
    /// Is the artifact that goes with the file already there?
    ArtifactExists,
}

/// What to do with a path.
#[derive(Clone, Copy, Debug, PartialEq, Eq, Structural)]
pub enum Verdict {
    /// Not decided yet: answer the probe and ask again.
    Ask(Probe),
    /// Search the current directory.
    SearchCurrentDirectory,
    /// Search this directory.
    Search,
    /// The file is a candidate.
    Take,
    /// The file is an image whose artifact is there already.
    Skip,
    /// The path is of no interest.
    Ignore,
}

/// The text of an extension, for use in contracts.
pub open spec fn extension_text(extension: Option<&str>) -> Option<Seq<char>> {
    match extension {
        Some(text) => Some(text@),
        None => None,
    }
}

/// The verdict on a path that was named as an input.
///
/// An empty path and `.` stand for the current directory. Any other path is
/// dealt with as an entry of a directory is: a directory is searched, and an
/// image file is a candidate unless its artifact exists.
pub open spec fn input_verdict(
    names_current_directory: bool,
    is_directory: Option<bool>,
    extension: Option<Seq<char>>,
    artifact_exists: Option<bool>,
) -> Verdict {
    if names_current_directory {
        Verdict::SearchCurrentDirectory
    } else {
        entry_verdict(is_directory, extension, artifact_exists)
    }
}

/// The verdict on an entry found while searching a directory.
///
/// A directory is searched in turn. An image file is a candidate unless its
/// artifact exists. Anything else is passed over.
pub open spec fn entry_verdict(
    is_directory: Option<bool>,
    extension: Option<Seq<char>>,
    artifact_exists: Option<bool>,
) -> Verdict {
    match is_directory {
        None => Verdict::Ask(Probe::IsDirectory),
        Some(true) => Verdict::Search,
        Some(false) => if extension matches Some(text) && is_image_extension(text) {
            match artifact_exists {
                None => Verdict::Ask(Probe::ArtifactExists),
                Some(true) => Verdict::Skip,
                Some(false) => Verdict::Take,
            }
        } else {
            Verdict::Ignore
        },
    }
}

/// Whether `text`, case folded, reads `name`. `name` is lower-case ASCII.
fn reads_as(text: &str, name: &str) -> (same: bool)
    requires
        is_ascii(name),
        forall|i: int| 0 <= i < name@.len() ==> !('A' <= #[trigger] name@[i] <= 'Z'),
    ensures
        same == (folded(text@) == name@),
{
    if !text.is_ascii() {
        proof {
            if folded(text@) == name@ {
                assert forall|i: int| 0 <= i < text@.len() implies '\0' <= #[trigger] text@[i]
                    <= '\u{7f}' by {
                    assert(folded(text@)[i] == fold_case(text@[i]));
                    assert('\0' <= name@[i] <= '\u{7f}');
                }
            }
        }
        return false;
    }
    let given = text.as_bytes();
    let wanted = name.as_bytes();
    proof {
        is_ascii_spec_bytes(text);
        is_ascii_spec_bytes(name);
    }
    if given.len() != wanted.len() {
        return false;
    }
    let mut at: usize = 0;
    while at < given.len()
        invariant
            at <= given.len(),
            given@.len() == text@.len(),
            wanted@.len() == name@.len(),
            given@.len() == wanted@.len(),
            is_ascii(text),
            is_ascii(name),
            forall|k: int| 0 <= k < text@.len() ==> given@[k] == (#[trigger] text@[k]) as u8,
            forall|k: int| 0 <= k < name@.len() ==> wanted@[k] == (#[trigger] name@[k]) as u8,
            forall|k: int| 0 <= k < at ==> #[trigger] folded(text@)[k] == name@[k],
        decreases given.len() - at,
    {
        let byte = given[at];
        let low: u8 = if 65 <= byte && byte <= 90 {
            byte + 32
        } else {
            byte
        };
        assert('\0' <= text@[at as int] <= '\u{7f}');
        assert('\0' <= name@[at as int] <= '\u{7f}');
        assert(low == fold_case(text@[at as int]) as u8);
        if low != wanted[at] {
            assert(folded(text@)[at as int] != name@[at as int]);
            return false;
        }
        at = at + 1;
    }
    assert(folded(text@) =~= name@);
    true
}

/// Whether a file with this extension is taken as an image: the extension is
/// there and is, in any mix of capitals and small letters, one of `jpg`,
/// `jpeg`, `png`, `gif`, `bmp` and `tiff`.
///
/// `extension` is what follows the last dot of the file's name, without the
/// dot, or `None` for a name without one.
pub fn is_image_file(extension: Option<&str>) -> (image: bool)
    ensures
        image == (extension matches Some(text) && is_image_extension(text@)),
{
    match extension {
        None => false,
        Some(text) => {
            proof {
                reveal_strlit("jpg");
                reveal_strlit("jpeg");
                reveal_strlit("png");
                reveal_strlit("gif");
                reveal_strlit("bmp");
                reveal_strlit("tiff");
            }
            reads_as(text, "jpg") || reads_as(text, "jpeg") || reads_as(text, "png") || reads_as(
                text,
                "gif",
            ) || reads_as(text, "bmp") || reads_as(text, "tiff")
        },
    }
}

/// The extension of the artifact that goes with a file: the file's own
/// extension with `.bh` behind it, so that `photo.jpg` gets `photo.jpg.bh`.
pub fn artifact_extension(extension: Option<&str>) -> (text: String)
    ensures
        text@ == artifact_extension_text(extension_text(extension)),
{
    let mut text = match extension {
        Some(e) => String::from_str(e),
        None => String::new(),
    };
    text.append(".bh");
    proof {
        assert(Seq::<char>::empty() + ".bh"@ =~= ".bh"@);
    }
    text
}

/// Decides what to do with a path that was named as an input. Pass `None`
/// for an answer until the verdict asks for it.
pub fn examine_input(
    names_current_directory: bool,
    is_directory: Option<bool>,
    extension: Option<&str>,
    artifact_exists: Option<bool>,
) -> (verdict: Verdict)
    ensures
        verdict == input_verdict(
            names_current_directory,
            is_directory,
            extension_text(extension),
            artifact_exists,
        ),
{
    if names_current_directory {
        Verdict::SearchCurrentDirectory
    } else {
        examine_entry(is_directory, extension, artifact_exists)
    }
}

/// Decides what to do with an entry of a directory that is being searched.
/// Pass `None` for an answer until the verdict asks for it.
pub fn examine_entry(
    is_directory: Option<bool>,
    extension: Option<&str>,
    artifact_exists: Option<bool>,
) -> (verdict: Verdict)
    ensures
        verdict == entry_verdict(is_directory, extension_text(extension), artifact_exists),
{
    match is_directory {
        None => Verdict::Ask(Probe::IsDirectory),
        Some(true) => Verdict::Search,
        Some(false) => if is_image_file(extension) {
            match artifact_exists {
                None => Verdict::Ask(Probe::ArtifactExists),
                Some(true) => Verdict::Skip,
                Some(false) => Verdict::Take,
            }
        } else {
            Verdict::Ignore
        },
    }
}

/// No file is taken whose artifact exists: a path that is taken, named or
/// found, is an image file that is no directory and whose artifact has been
/// looked for and is not there.
pub proof fn lemma_taken_has_no_artifact(
    names_current_directory: bool,
    is_directory: Option<bool>,
    extension: Option<Seq<char>>,
    artifact_exists: Option<bool>,
)
    requires
        input_verdict(names_current_directory, is_directory, extension, artifact_exists)
            == Verdict::Take || entry_verdict(is_directory, extension, artifact_exists)
            == Verdict::Take,
    ensures
        artifact_exists == Some(false),
        is_directory == Some(false),
        extension matches Some(text) && is_image_extension(text),
{
}

/// Once its artifact exists a file is never taken again: named or found, an
/// image file with its artifact is skipped, so that nothing is left to take
/// after a batch in which every file was saved.
pub proof fn lemma_done_is_not_taken(
    names_current_directory: bool,
    is_directory: Option<bool>,
    extension: Option<Seq<char>>,
)
    ensures
        input_verdict(names_current_directory, is_directory, extension, Some(true))
            != Verdict::Take,
        entry_verdict(is_directory, extension, Some(true)) != Verdict::Take,
        is_directory == Some(false) && (extension matches Some(text) && is_image_extension(text))
            ==> entry_verdict(is_directory, extension, Some(true)) == Verdict::Skip,
        !names_current_directory && is_directory == Some(false) && (extension matches Some(text)
            && is_image_extension(text)) ==> input_verdict(
            names_current_directory,
            is_directory,
            extension,
            Some(true),
        ) == Verdict::Skip,
{
}

/// A verdict asks only for what it has not been told, and each question at
/// most once: with both answers given, the verdict is final.
pub proof fn lemma_verdict_is_final(
    names_current_directory: bool,
    is_directory: bool,
    extension: Option<Seq<char>>,
    artifact_exists: bool,
)
    ensures
        !(input_verdict(
            names_current_directory,
            Some(is_directory),
            extension,
            Some(artifact_exists),
        ) is Ask),
        !(entry_verdict(Some(is_directory), extension, Some(artifact_exists)) is Ask),
{
}

} // verus!
