//! Which paths and names a filesystem may use.
use vstd::prelude::*;

use crate::error::{failure, failure_of, failure_over, Error, ErrorKind, Failure};
use crate::iso9660::description::IdentifierPolicy;
use crate::iso9660::joliet::{encode_joliet_identifier, joliet_identifier};
use crate::model::{accepts, first_failure, views};
use crate::text::{
    chars_of, components, cut_last, path_components, root_path, same_text, split_last, utf8,
};

verus! {

/// The byte is a d-character: an upper-case letter, a digit or an underscore.
pub open spec fn is_d_character(byte: u8) -> bool {
    65 <= byte <= 90 || 48 <= byte <= 57 || byte == 95
}

/// The byte may stand in a nonstandard ASCII identifier.
pub open spec fn is_nonstandard_character(byte: u8) -> bool {
    33 <= byte <= 126 && byte != 47 && byte != 92
}

/// Every byte is a d-character.
pub open spec fn d_characters(bytes: Seq<u8>) -> bool {
    forall|i: int| 0 <= i < bytes.len() ==> is_d_character(#[trigger] bytes[i])
}

/// Every byte may stand in a nonstandard ASCII identifier.
pub open spec fn nonstandard_characters(bytes: Seq<u8>) -> bool {
    forall|i: int| 0 <= i < bytes.len() ==> is_nonstandard_character(#[trigger] bytes[i])
}

/// The name that stands for the directory above.
pub open spec fn up_path() -> Seq<char> {
    seq!['.', '.']
}

/// Whether a text is made of d-characters.
pub fn valid_d_chars(value: &str) -> (valid: bool)
    ensures
        valid == d_characters(utf8(value@)),
{
    let bytes: &[u8] = value.as_bytes();
    let mut i: usize = 0;
    while i < bytes.len()
        invariant
            i <= bytes.len(),
            bytes@ == utf8(value@),
            forall|j: int| 0 <= j < i ==> is_d_character(#[trigger] bytes@[j]),
        decreases bytes.len() - i,
    {
        let byte: u8 = bytes[i];
        if !((byte >= 65 && byte <= 90) || (byte >= 48 && byte <= 57) || byte == 95) {
            assert(!is_d_character(bytes@[i as int]));
            return false;
        }
        i = i + 1;
    }
    true
}

fn valid_nonstandard_chars(value: &str) -> (valid: bool)
    ensures
        valid == nonstandard_characters(utf8(value@)),
{
    let bytes: &[u8] = value.as_bytes();
    let mut i: usize = 0;
    while i < bytes.len()
        invariant
            i <= bytes.len(),
            bytes@ == utf8(value@),
            forall|j: int| 0 <= j < i ==> is_nonstandard_character(#[trigger] bytes@[j]),
        decreases bytes.len() - i,
    {
        let byte: u8 = bytes[i];
        if byte < 33 || byte > 126 || byte == 47 || byte == 92 {
            assert(!is_nonstandard_character(bytes@[i as int]));
            return false;
        }
        i = i + 1;
    }
    true
}

/// The name stands for a directory itself or for the one above it.
pub open spec fn is_dots(name: Seq<char>) -> bool {
    name == root_path() || name == up_path()
}

fn is_dot_name(name: &str) -> (dots: bool)
    ensures
        dots == is_dots(name@),
{
    proof {
        reveal_strlit(".");
        reveal_strlit("..");
        assert("."@ =~= root_path());
        assert(".."@ =~= up_path());
    }
    same_text(name, ".") || same_text(name, "..")
}

/// The text is a nonstandard ASCII identifier.
pub open spec fn is_nonstandard_identifier(name: Seq<char>) -> bool {
    name.len() > 0 && !is_dots(name) && nonstandard_characters(utf8(name))
}

/// Whether a text is a nonstandard ASCII identifier.
pub fn valid_nonstandard_ascii_identifier(value: &str) -> (valid: bool)
    ensures
        valid == is_nonstandard_identifier(value@),
{
    !value.is_empty() && !is_dot_name(value) && valid_nonstandard_chars(value)
}

/// A file name's parts around the last period.
pub open spec fn stem_and_extension(name: Seq<char>) -> (Seq<char>, Seq<char>) {
    match split_last(name, '.') {
        Some(parts) => parts,
        None => (name, Seq::empty()),
    }
}

fn cut_extension(name: &str) -> (parts: (String, String))
    ensures
        (parts.0@, parts.1@) == stem_and_extension(name@),
{
    match cut_last(name, '.') {
        Some(parts) => parts,
        None => (name.to_owned(), String::new()),
    }
}

/// The parts of a file name have the sizes of level 1.
pub open spec fn has_level1_sizes(name: Seq<char>) -> bool {
    let (stem, extension) = stem_and_extension(name);
    stem.len() > 0 && utf8(stem).len() <= 8 && utf8(extension).len() <= 3
}

/// The parts of a file name are made of d-characters.
pub open spec fn has_level1_characters(name: Seq<char>) -> bool {
    let (stem, extension) = stem_and_extension(name);
    d_characters(utf8(stem)) && d_characters(utf8(extension))
}

/// The name is an ISO 9660 level 1 identifier.
pub open spec fn is_level1(name: Seq<char>, file: bool) -> bool {
    if file {
        has_level1_sizes(name) && has_level1_characters(name)
    } else {
        utf8(name).len() <= 8 && d_characters(utf8(name))
    }
}

/// Whether a name is an ISO 9660 level 1 identifier.
pub fn identifier_is_iso_level1(value: &str, file: bool) -> (level1: bool)
    ensures
        level1 == is_level1(value@, file),
{
    if file {
        let (stem, extension) = cut_extension(value);
        !stem.as_str().is_empty() && stem.as_str().as_bytes().len() <= 8
            && extension.as_str().as_bytes().len() <= 3 && valid_d_chars(stem.as_str())
            && valid_d_chars(extension.as_str())
    } else {
        value.as_bytes().len() <= 8 && valid_d_chars(value)
    }
}

/// What is wrong with one component of a path.
pub open spec fn component_check(part: Seq<char>, file: bool, policy: IdentifierPolicy) -> Result<
    (),
    Failure,
> {
    if is_dots(part) {
        Err(failure(ErrorKind::PathTraversal))
    } else if policy == IdentifierPolicy::NonstandardAscii {
        if is_nonstandard_identifier(part) {
            Ok(())
        } else {
            Err(failure_of(ErrorKind::NonstandardIdentifier, part))
        }
    } else if file {
        if !has_level1_sizes(part) {
            Err(failure_of(ErrorKind::FileNotLevel1, part))
        } else if !has_level1_characters(part) {
            Err(failure_of(ErrorKind::FileCharacters, part))
        } else {
            Ok(())
        }
    } else if is_level1(part, false) {
        Ok(())
    } else {
        Err(failure_of(ErrorKind::DirectoryNotLevel1, part))
    }
}

fn check_component(part: &str, file: bool, policy: IdentifierPolicy) -> (result: Result<(), Error>)
    ensures
        accepts(result, component_check(part@, file, policy)),
{
    if is_dot_name(part) {
        return Err(Error::new(ErrorKind::PathTraversal));
    }
    match policy {
        IdentifierPolicy::NonstandardAscii => if valid_nonstandard_ascii_identifier(part) {
            Ok(())
        } else {
            Err(Error::of(ErrorKind::NonstandardIdentifier, part))
        },
        IdentifierPolicy::IsoLevel1 => if file {
            let (stem, extension) = cut_extension(part);
            if stem.as_str().is_empty() || stem.as_str().as_bytes().len() > 8
                || extension.as_str().as_bytes().len() > 3 {
                return Err(Error::of(ErrorKind::FileNotLevel1, part));
            }
            if !valid_d_chars(stem.as_str()) || !valid_d_chars(extension.as_str()) {
                return Err(Error::of(ErrorKind::FileCharacters, part));
            }
            Ok(())
        } else if identifier_is_iso_level1(part, false) {
            Ok(())
        } else {
            Err(Error::of(ErrorKind::DirectoryNotLevel1, part))
        },
    }
}

/// The checks of the components of a path; only the last one names a file.
pub open spec fn component_checks(parts: Seq<Seq<char>>, file: bool, policy: IdentifierPolicy) -> spec_fn(
    int,
) -> Result<(), Failure> {
    |i: int| component_check(parts[i], file && i + 1 == parts.len(), policy)
}

/// The path is relative and does not end with a slash.
pub open spec fn is_relative(path: Seq<char>) -> bool {
    path.len() > 0 && path[0] != '/' && path.last() != '/'
}

fn is_relative_path(path: &str) -> (relative: bool)
    ensures
        relative == is_relative(path@),
{
    let characters: Vec<char> = chars_of(path);
    characters.len() > 0 && characters[0] != '/' && characters[characters.len() - 1] != '/'
}

/// What is wrong with a path of the primary tree.
pub open spec fn path_check(path: Seq<char>, file: bool, policy: IdentifierPolicy) -> Result<
    (),
    Failure,
> {
    if !is_relative(path) {
        Err(failure(ErrorKind::IsoPath))
    } else {
        first_failure(
            component_checks(components(path), file, policy),
            0,
            components(path).len() as int,
        )
    }
}

/// Checks a path of the primary tree.
pub fn validate_path(path: &str, is_file: bool, identifier_policy: IdentifierPolicy) -> (result: Result<
    (),
    Error,
>)
    ensures
        accepts(result, path_check(path@, is_file, identifier_policy)),
{
    if !is_relative_path(path) {
        return Err(Error::new(ErrorKind::IsoPath));
    }
    let parts: Vec<String> = path_components(path);
    let ghost model = components(path@);
    let ghost checks = component_checks(model, is_file, identifier_policy);
    let mut i: usize = 0;
    while i < parts.len()
        invariant
            i <= parts.len(),
            is_relative(path@),
            model == components(path@),
            model == views(parts@),
            checks == component_checks(model, is_file, identifier_policy),
            first_failure(checks, 0, model.len() as int) == first_failure(
                checks,
                i as int,
                model.len() as int,
            ),
        decreases parts.len() - i,
    {
        assert(model[i as int] == parts@[i as int]@);
        match check_component(parts[i].as_str(), is_file && i + 1 == parts.len(), identifier_policy) {
            Ok(_) => {},
            Err(error) => return Err(error),
        }
        i = i + 1;
    }
    Ok(())
}

/// A component of a Joliet path has no meaning of its own.
pub open spec fn is_plain_component(part: Seq<char>) -> bool {
    part.len() > 0 && !is_dots(part)
}

/// The path is relative, and every component names something.
pub open spec fn is_joliet_path(path: Seq<char>) -> bool {
    is_relative(path) && forall|i: int|
        0 <= i < components(path).len() ==> is_plain_component(#[trigger] components(path)[i])
}

/// What is wrong with one component of a Joliet path.
pub open spec fn joliet_component_check(part: Seq<char>) -> Result<(), Failure> {
    match joliet_identifier(part) {
        Ok(_) => Ok(()),
        Err(under) => Err(failure_over(ErrorKind::JolietPathComponent, part, 0, under)),
    }
}

/// The checks of the components of a Joliet path.
pub open spec fn joliet_component_checks(parts: Seq<Seq<char>>) -> spec_fn(int) -> Result<(), Failure> {
    |i: int| joliet_component_check(parts[i])
}

/// What is wrong with a path of the Joliet tree.
pub open spec fn joliet_path_check(path: Seq<char>) -> Result<(), Failure> {
    if !is_joliet_path(path) {
        Err(failure_of(ErrorKind::JolietPath, path))
    } else {
        first_failure(joliet_component_checks(components(path)), 0, components(path).len() as int)
    }
}

fn are_plain_components(parts: &Vec<String>) -> (plain: bool)
    ensures
        plain <==> forall|i: int|
            0 <= i < parts@.len() ==> is_plain_component(#[trigger] views(parts@)[i]),
{
    let mut i: usize = 0;
    while i < parts.len()
        invariant
            i <= parts.len(),
            forall|j: int| 0 <= j < i ==> is_plain_component(#[trigger] views(parts@)[j]),
        decreases parts.len() - i,
    {
        assert(views(parts@)[i as int] == parts@[i as int]@);
        if parts[i].as_str().is_empty() || is_dot_name(parts[i].as_str()) {
            return false;
        }
        i = i + 1;
    }
    true
}

/// Checks a path of the Joliet tree.
pub fn validate_joliet_path(path: &str) -> (result: Result<(), Error>)
    ensures
        accepts(result, joliet_path_check(path@)),
{
    let parts: Vec<String> = path_components(path);
    let ghost model = components(path@);
    if !is_relative_path(path) || !are_plain_components(&parts) {
        return Err(Error::of(ErrorKind::JolietPath, path));
    }
    let ghost checks = joliet_component_checks(model);
    let mut i: usize = 0;
    while i < parts.len()
        invariant
            i <= parts.len(),
            is_joliet_path(path@),
            model == components(path@),
            model == views(parts@),
            checks == joliet_component_checks(model),
            first_failure(checks, 0, model.len() as int) == first_failure(
                checks,
                i as int,
                model.len() as int,
            ),
        decreases parts.len() - i,
    {
        assert(model[i as int] == parts@[i as int]@);
        match encode_joliet_identifier(parts[i].as_str()) {
            Ok(_) => {},
            Err(error) => return Err(
                Error::over(ErrorKind::JolietPathComponent, parts[i].as_str(), 0, error),
            ),
        }
        i = i + 1;
    }
    Ok(())
}

} // verus!
