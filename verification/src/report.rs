//! What is told of an extraction or a build.
use vstd::prelude::*;

use crate::error::{failure_of, Error, ErrorKind, Failure};
use crate::manifest::track::{format_signed, push_text, signed_text};
use crate::model::{opt_view, views, views_push};
use crate::text::{cut_last, decimal, push_decimal, same_text, split, split_at, split_last};

verus! {

/// Why something was recovered that a project cannot describe otherwise.
#[derive(Clone, Copy, Debug, PartialEq, Eq, Structural)]
pub enum RecoveryCategory {
    MalformedSystemArea,
    DirectoryBufferResidue,
}

impl RecoveryCategory {
    /// The name of the category.
    pub open spec fn spelling(self) -> Seq<char> {
        match self {
            RecoveryCategory::MalformedSystemArea => "malformed-system-area"@,
            RecoveryCategory::DirectoryBufferResidue => "directory-buffer-residue"@,
        }
    }

    pub fn name(self) -> (name: &'static str)
        ensures
            name@ == self.spelling(),
    {
        match self {
            RecoveryCategory::MalformedSystemArea => "malformed-system-area",
            RecoveryCategory::DirectoryBufferResidue => "directory-buffer-residue",
        }
    }
}

/// Where something was recovered.
#[derive(Clone, Debug)]
pub struct RecoveryRange {
    pub first_lba: i32,
    pub last_lba: i32,
    pub first_msf: String,
    pub last_msf: String,
}

/// What was recovered, and where.
#[derive(Clone, Debug)]
pub struct RecoveryWarning {
    pub category: RecoveryCategory,
    pub ranges: Vec<RecoveryRange>,
    pub path: Option<String>,
    pub description: String,
}

/// What an extraction did.
#[derive(Clone, Debug)]
pub struct ExtractReport {
    pub sectors: u64,
    pub sha1: String,
    pub recovery_warnings: Vec<RecoveryWarning>,
}

/// What a checksum is of.
#[derive(Clone, Debug, PartialEq, Eq)]
pub enum Sha1Target {
    Track,
    SystemArea { path: String },
    Asset { path: String },
}

/// A checksum that is not what the project says.
#[derive(Clone, Debug, PartialEq, Eq)]
pub struct Sha1Mismatch {
    pub target: Sha1Target,
    pub expected: String,
    pub actual: String,
}

/// What a build did.
#[derive(Clone, Debug)]
pub struct BuildReport {
    pub sectors: u64,
    pub sha1: String,
    pub sha1_mismatches: Vec<Sha1Mismatch>,
}

/// `joined`, and then the texts from `index` on with a separator before each but the
/// first.
pub open spec fn joined_from(texts: Seq<Seq<char>>, separator: Seq<char>, index: int, joined: Seq<char>) -> Seq<
    char,
>
    decreases texts.len() - index,
{
    if index < 0 || index >= texts.len() {
        joined
    } else if index == 0 {
        joined_from(texts, separator, 1, joined + texts[0])
    } else {
        joined_from(texts, separator, index + 1, joined + separator + texts[index])
    }
}

/// Texts with a separator between them.
pub open spec fn joined(texts: Seq<Seq<char>>, separator: Seq<char>) -> Seq<char> {
    joined_from(texts, separator, 0, Seq::empty())
}

fn join(texts: &Vec<String>, separator: &str) -> (text: String)
    ensures
        text@ == joined(views(texts@), separator@),
{
    let ghost model = views(texts@);
    let mut text: String = String::new();
    let mut i: usize = 0;
    assert(text@ =~= Seq::empty());
    while i < texts.len()
        invariant
            i <= texts.len(),
            model == views(texts@),
            joined(model, separator@) == joined_from(model, separator@, i as int, text@),
        decreases texts.len() - i,
    {
        assert(model[i as int] == texts@[i as int]@);
        if i > 0 {
            push_text(&mut text, separator);
        }
        push_text(&mut text, texts[i].as_str());
        i = i + 1;
    }
    text
}

/// The summary of an extraction.
pub open spec fn extraction_summary(report: ExtractReport, manifest: Seq<char>) -> Seq<char> {
    "Extraction complete\n  Sectors: "@ + decimal(report.sectors as nat) + "\n  Source SHA-1: "@
        + report.sha1@ + "\n  Recovery warnings: "@ + decimal(report.recovery_warnings@.len())
        + "\n  Manifest: "@ + manifest
}

/// Tells what an extraction did.
pub fn format_extraction_summary(report: &ExtractReport, manifest: &str) -> (text: String)
    ensures
        text@ == extraction_summary(*report, manifest@),
{
    let mut text: String = "Extraction complete\n  Sectors: ".to_owned();
    push_decimal(&mut text, report.sectors);
    push_text(&mut text, "\n  Source SHA-1: ");
    push_text(&mut text, report.sha1.as_str());
    push_text(&mut text, "\n  Recovery warnings: ");
    push_decimal(&mut text, report.recovery_warnings.len() as u64);
    push_text(&mut text, "\n  Manifest: ");
    push_text(&mut text, manifest);
    text
}

/// The summary of a build.
pub open spec fn build_summary(report: BuildReport, image: Seq<char>) -> Seq<char> {
    "Build complete\n  Sectors: "@ + decimal(report.sectors as nat) + "\n  Image SHA-1: "@
        + report.sha1@ + "\n  SHA-1 warnings: "@ + decimal(report.sha1_mismatches@.len())
        + "\n  Image: "@ + image
}

/// Tells what a build did.
pub fn format_build_summary(report: &BuildReport, image: &str) -> (text: String)
    ensures
        text@ == build_summary(*report, image@),
{
    let mut text: String = "Build complete\n  Sectors: ".to_owned();
    push_decimal(&mut text, report.sectors);
    push_text(&mut text, "\n  Image SHA-1: ");
    push_text(&mut text, report.sha1.as_str());
    push_text(&mut text, "\n  SHA-1 warnings: ");
    push_decimal(&mut text, report.sha1_mismatches.len() as u64);
    push_text(&mut text, "\n  Image: ");
    push_text(&mut text, image);
    text
}

/// A place as a text.
pub open spec fn range_text(range: RecoveryRange) -> Seq<char> {
    if range.first_lba == range.last_lba {
        "LBA "@ + signed_text(range.first_lba) + " ("@ + range.first_msf@ + ")"@
    } else {
        "LBAs "@ + signed_text(range.first_lba) + "-"@ + signed_text(range.last_lba) + " ("@
            + range.first_msf@ + "-"@ + range.last_msf@ + ")"@
    }
}

fn format_range(range: &RecoveryRange) -> (text: String)
    ensures
        text@ == range_text(*range),
{
    if range.first_lba == range.last_lba {
        let mut text: String = "LBA ".to_owned();
        push_text(&mut text, format_signed(range.first_lba).as_str());
        push_text(&mut text, " (");
        push_text(&mut text, range.first_msf.as_str());
        push_text(&mut text, ")");
        text
    } else {
        let mut text: String = "LBAs ".to_owned();
        push_text(&mut text, format_signed(range.first_lba).as_str());
        push_text(&mut text, "-");
        push_text(&mut text, format_signed(range.last_lba).as_str());
        push_text(&mut text, " (");
        push_text(&mut text, range.first_msf.as_str());
        push_text(&mut text, "-");
        push_text(&mut text, range.last_msf.as_str());
        push_text(&mut text, ")");
        text
    }
}

/// The texts of places.
pub open spec fn range_texts(ranges: Seq<RecoveryRange>) -> Seq<Seq<char>> {
    Seq::new(ranges.len(), |i: int| range_text(ranges[i]))
}

fn format_ranges(ranges: &Vec<RecoveryRange>) -> (texts: Vec<String>)
    ensures
        views(texts@) == range_texts(ranges@),
{
    let mut texts: Vec<String> = Vec::new();
    let mut i: usize = 0;
    while i < ranges.len()
        invariant
            i <= ranges.len(),
            views(texts@) == range_texts(ranges@).take(i as int),
        decreases ranges.len() - i,
    {
        let text: String = format_range(&ranges[i]);
        proof {
            views_push(texts@, text);
        }
        texts.push(text);
        i = i + 1;
        assert(views(texts@) =~= range_texts(ranges@).take(i as int));
    }
    assert(range_texts(ranges@).take(i as int) =~= range_texts(ranges@));
    texts
}

/// A warning of something recovered.
pub open spec fn warning_text(warning: RecoveryWarning) -> Seq<char> {
    let head = "Recovery warning\n  Category: "@ + warning.category.spelling() + "\n  Location: "@
        + joined(range_texts(warning.ranges@), ", "@);
    let path = match warning.path {
        Some(path) => head + "\n  Path: "@ + path@,
        None => head,
    };
    path + "\n  Details: "@ + warning.description@
}

/// Tells what was recovered, and where.
pub fn format_recovery_warning(warning: &RecoveryWarning) -> (text: String)
    ensures
        text@ == warning_text(*warning),
{
    let mut text: String = "Recovery warning\n  Category: ".to_owned();
    push_text(&mut text, warning.category.name());
    push_text(&mut text, "\n  Location: ");
    push_text(&mut text, join(&format_ranges(&warning.ranges), ", ").as_str());
    match &warning.path {
        Some(path) => {
            push_text(&mut text, "\n  Path: ");
            push_text(&mut text, path.as_str());
        },
        None => {},
    }
    push_text(&mut text, "\n  Details: ");
    push_text(&mut text, warning.description.as_str());
    text
}

/// Warnings, with an empty line between them.
pub open spec fn warnings_text(warnings: Seq<RecoveryWarning>) -> Seq<char> {
    joined(Seq::new(warnings.len(), |i: int| warning_text(warnings[i])), "\n\n"@)
}

/// Tells everything that was recovered.
pub fn format_recovery_warnings(warnings: &[RecoveryWarning]) -> (text: String)
    ensures
        text@ == warnings_text(warnings@),
{
    let ghost all = Seq::new(warnings@.len(), |i: int| warning_text(warnings@[i]));
    let mut texts: Vec<String> = Vec::new();
    let mut i: usize = 0;
    while i < warnings.len()
        invariant
            i <= warnings.len(),
            all == Seq::new(warnings@.len(), |i: int| warning_text(warnings@[i])),
            views(texts@) == all.take(i as int),
        decreases warnings.len() - i,
    {
        let text: String = format_recovery_warning(&warnings[i]);
        proof {
            views_push(texts@, text);
        }
        texts.push(text);
        i = i + 1;
        assert(views(texts@) =~= all.take(i as int));
    }
    assert(all.take(i as int) =~= all);
    join(&texts, "\n\n")
}

/// What a checksum is of, as a text.
pub open spec fn target_text(target: Sha1Target) -> Seq<char> {
    match target {
        Sha1Target::Track => "track"@,
        Sha1Target::SystemArea { path } => "system area "@ + path@,
        Sha1Target::Asset { path } => "asset "@ + path@,
    }
}

/// A warning of a checksum.
pub open spec fn mismatch_text(mismatch: Sha1Mismatch) -> Seq<char> {
    "SHA-1 mismatch\n  Target: "@ + target_text(mismatch.target) + "\n  Expected: "@
        + mismatch.expected@ + "\n  Actual: "@ + mismatch.actual@
}

/// Tells of a checksum that is not what the project says.
pub fn format_sha1_warning(mismatch: &Sha1Mismatch) -> (text: String)
    ensures
        text@ == mismatch_text(*mismatch),
{
    let mut target: String = String::new();
    match &mismatch.target {
        Sha1Target::Track => {
            push_text(&mut target, "track");
        },
        Sha1Target::SystemArea { path } => {
            push_text(&mut target, "system area ");
            push_text(&mut target, path.as_str());
        },
        Sha1Target::Asset { path } => {
            push_text(&mut target, "asset ");
            push_text(&mut target, path.as_str());
        },
    }
    assert(target@ =~= target_text(mismatch.target));
    let mut text: String = "SHA-1 mismatch\n  Target: ".to_owned();
    push_text(&mut text, target.as_str());
    push_text(&mut text, "\n  Expected: ");
    push_text(&mut text, mismatch.expected.as_str());
    push_text(&mut text, "\n  Actual: ");
    push_text(&mut text, mismatch.actual.as_str());
    text
}

/// Warnings of checksums, with an empty line between them.
pub open spec fn mismatches_text(mismatches: Seq<Sha1Mismatch>) -> Seq<char> {
    joined(Seq::new(mismatches.len(), |i: int| mismatch_text(mismatches[i])), "\n\n"@)
}

/// Tells of every checksum that is not what the project says.
pub fn format_sha1_warnings(mismatches: &[Sha1Mismatch]) -> (text: String)
    ensures
        text@ == mismatches_text(mismatches@),
{
    let ghost all = Seq::new(mismatches@.len(), |i: int| mismatch_text(mismatches@[i]));
    let mut texts: Vec<String> = Vec::new();
    let mut i: usize = 0;
    while i < mismatches.len()
        invariant
            i <= mismatches.len(),
            all == Seq::new(mismatches@.len(), |i: int| mismatch_text(mismatches@[i])),
            views(texts@) == all.take(i as int),
        decreases mismatches.len() - i,
    {
        let text: String = format_sha1_warning(&mismatches[i]);
        proof {
            views_push(texts@, text);
        }
        texts.push(text);
        i = i + 1;
        assert(views(texts@) =~= all.take(i as int));
    }
    assert(all.take(i as int) =~= all);
    join(&texts, "\n\n")
}

/// Tells whether the checksum of the track itself is not what the project says.
pub fn has_track_sha1_mismatch(mismatches: &[Sha1Mismatch]) -> (found: bool)
    ensures
        found == exists|i: int|
            0 <= i < mismatches@.len() && (#[trigger] mismatches@[i]).target is Track,
{
    let mut i: usize = 0;
    while i < mismatches.len()
        invariant
            i <= mismatches.len(),
            forall|j: int| 0 <= j < i ==> !((#[trigger] mismatches@[j]).target is Track),
        decreases mismatches.len() - i,
    {
        match &mismatches[i].target {
            Sha1Target::Track => return true,
            _ => {},
        }
        i = i + 1;
    }
    false
}

/// A part of a path that names something: neither empty nor the directory itself.
pub open spec fn names_something(part: Seq<char>) -> bool {
    part.len() > 0 && part != seq!['.']
}

/// The last of the first `count` parts that names something, or nothing.
pub open spec fn last_named(parts: Seq<Seq<char>>, count: int) -> Seq<char>
    decreases count,
{
    if count <= 0 {
        Seq::empty()
    } else if names_something(parts[count - 1]) {
        parts[count - 1]
    } else {
        last_named(parts, count - 1)
    }
}

/// The name of the file at a path, or nothing.
pub open spec fn file_name_in(path: Seq<char>) -> Seq<char> {
    let parts = split_at(path, '/');
    let name = last_named(parts, parts.len() as int);
    if name == seq!['.', '.'] {
        Seq::empty()
    } else {
        name
    }
}

/// A file name without its extension.
pub open spec fn stem_of(name: Seq<char>) -> Seq<char> {
    match split_last(name, '.') {
        Some((stem, _)) => if stem.len() > 0 {
            stem
        } else {
            name
        },
        None => name,
    }
}

/// Where output goes by default: the name of the input, with another extension.
pub open spec fn output_path(
    explicit: Option<Seq<char>>,
    input: Seq<char>,
    extension: Seq<char>,
    input_kind: Seq<char>,
) -> Result<Seq<char>, Failure> {
    let name = file_name_in(input);
    match explicit {
        Some(path) => Ok(path),
        None => if name.len() == 0 {
            Err(failure_of(ErrorKind::OutputName, input_kind + " path "@ + input))
        } else if extension.len() == 0 {
            Ok(stem_of(name))
        } else {
            Ok(stem_of(name) + seq!['.'] + extension)
        },
    }
}

fn is_named(part: &str) -> (named: bool)
    ensures
        named == names_something(part@),
{
    proof {
        reveal_strlit(".");
        assert("."@ =~= seq!['.']);
    }
    !part.is_empty() && !same_text(part, ".")
}

fn find_file_name(path: &str) -> (name: String)
    ensures
        name@ == file_name_in(path@),
{
    let parts: Vec<String> = split(path, '/');
    let ghost model = split_at(path@, '/');
    let mut count: usize = parts.len();
    while count > 0 && !is_named(parts[count - 1].as_str())
        invariant
            count <= parts.len(),
            model == views(parts@),
            last_named(model, model.len() as int) == last_named(model, count as int),
        decreases count,
    {
        assert(model[count - 1] == parts@[count - 1]@);
        count = count - 1;
    }
    if count == 0 {
        return String::new();
    }
    assert(model[count - 1] == parts@[count - 1]@);
    proof {
        reveal_strlit("..");
        assert(".."@ =~= seq!['.', '.']);
    }
    if same_text(parts[count - 1].as_str(), "..") {
        return String::new();
    }
    parts[count - 1].clone()
}

/// Finds where output goes.
pub fn resolve_output_path(explicit: Option<String>, input: &str, extension: &str, input_kind: &str) -> (result: Result<
    String,
    Error,
>)
    ensures
        match (result, output_path(opt_view(explicit), input@, extension@, input_kind@)) {
            (Ok(path), Ok(expected)) => path@ == expected,
            (Err(error), Err(failure)) => error@ == failure,
            _ => false,
        },
{
    match explicit {
        Some(path) => return Ok(path),
        None => {},
    }
    let name: String = find_file_name(input);
    if name.as_str().is_empty() {
        let mut subject: String = input_kind.to_owned();
        push_text(&mut subject, " path ");
        push_text(&mut subject, input);
        return Err(Error::of(ErrorKind::OutputName, subject.as_str()));
    }
    let mut stem: String = match cut_last(name.as_str(), '.') {
        None => name,
        Some((stem, _)) => if stem.as_str().is_empty() {
            name
        } else {
            stem
        },
    };
    assert(stem@ == stem_of(file_name_in(input@)));
    if extension.is_empty() {
        return Ok(stem);
    }
    stem.push('.');
    push_text(&mut stem, extension);
    assert(stem@ =~= stem_of(file_name_in(input@)) + seq!['.'] + extension@);
    Ok(stem)
}

} // verus!
