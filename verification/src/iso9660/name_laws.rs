//! Which names and paths a filesystem may use, character by character.
use vstd::prelude::*;

use crate::iso9660::description::IdentifierPolicy;
use crate::iso9660::paths::{
    component_check, component_checks, d_characters, is_d_character, is_dots, is_level1,
    is_nonstandard_character, is_nonstandard_identifier, is_relative, nonstandard_characters,
    path_check, stem_and_extension,
};
use crate::model::{first_failure, first_failure_ok};
use crate::text::{components, last_index_of_is_last, last_index_of_unique, split_last, utf8};

verus! {

/// A character is a number that takes no more than 21 bits.
proof fn character_is_a_number(character: char)
    ensures
        0 <= character as int <= 0x10ffff,
        character as u32 == character as int,
        character as nat == character as int,
        (character as int) < 128 ==> character as u8 == character as int,
{
}

/// A byte of a text is below 128 only where it is a character of the text.
proof fn ascii_text_is_its_bytes(text: Seq<char>)
    requires
        forall|i: int| 0 <= i < utf8(text).len() ==> #[trigger] utf8(text)[i] < 128,
    ensures
        utf8(text).len() == text.len(),
        forall|i: int|
            0 <= i < text.len() ==> (#[trigger] text[i]) as int == utf8(text)[i] as int,
    decreases text.len(),
{
    if text.len() > 0 {
        let rest = text.drop_first();
        let first = text[0] as u32;
        character_is_a_number(text[0]);
        let head = vstd::utf8::encode_scalar(first);
        assert(utf8(text) == head + utf8(rest));
        assert(head[0] == utf8(text)[0]);
        if !vstd::utf8::has_width_1_encoding(first) {
            let two = ((first >> 6) & 0x1F) as u8;
            let three = ((first >> 12) & 0x0F) as u8;
            let four = ((first >> 18) & 0x7) as u8;
            assert(0xC0u8 | two >= 128 && 0xE0u8 | three >= 128 && 0xF0u8 | four >= 128)
                by (bit_vector);
            assert(false);
        }
        assert(first < 128 ==> (first & 0x7F) as u8 == first) by (bit_vector);
        assert(head.len() == 1);
        assert forall|i: int| 0 <= i < utf8(rest).len() implies #[trigger] utf8(rest)[i] < 128 by {
            assert(utf8(text)[i + 1] == utf8(rest)[i]);
        }
        ascii_text_is_its_bytes(rest);
        assert forall|i: int| 0 <= i < text.len() implies (#[trigger] text[i]) as int == utf8(
            text,
        )[i] as int by {
            if i > 0 {
                assert(rest[i - 1] == text[i]);
                assert(utf8(text)[i] == utf8(rest)[i - 1]);
            }
        }
    }
}

/// A text of characters below 128 is written as those characters.
proof fn ascii_bytes_are_the_text(text: Seq<char>)
    requires
        forall|i: int| 0 <= i < text.len() ==> (#[trigger] text[i] as int) < 128,
    ensures
        utf8(text).len() == text.len(),
        forall|i: int|
            0 <= i < text.len() ==> #[trigger] utf8(text)[i] as int == text[i] as int,
{
    assert(vstd::utf8::is_ascii_chars(text)) by {
        assert forall|i: int| 0 <= i < text.len() implies '\0' <= #[trigger] text[i] <= '\u{7f}' by {
            assert((text[i] as int) < 128);
            character_is_a_number(text[i]);
        }
    }
    vstd::utf8::is_ascii_chars_encode_utf8(text);
    assert forall|i: int| 0 <= i < text.len() implies #[trigger] utf8(text)[i] as int
        == text[i] as int by {
        assert(text[i] as u8 == utf8(text)[i]);
        assert((text[i] as int) < 128);
        character_is_a_number(text[i]);
    }
}

/// A character is an upper-case letter, a digit or an underscore.
pub open spec fn is_plain_letter(character: char) -> bool {
    'A' <= character <= 'Z' || '0' <= character <= '9' || character == '_'
}

/// A text is made of d-characters exactly when each of its characters is an upper-case
/// letter, a digit or an underscore.
pub proof fn d_characters_are_letters(text: Seq<char>)
    ensures
        d_characters(utf8(text)) <==> forall|i: int|
            0 <= i < text.len() ==> 'A' <= (#[trigger] text[i]) <= 'Z' || '0' <= text[i] <= '9'
                || text[i] == '_',
        d_characters(utf8(text)) ==> utf8(text).len() == text.len(),
{
    if d_characters(utf8(text)) {
        ascii_text_is_its_bytes(text);
        assert forall|i: int| 0 <= i < text.len() implies is_plain_letter(#[trigger] text[i]) by {
            assert(is_d_character(utf8(text)[i]));
        }
        assert(forall|i: int| 0 <= i < text.len() ==> is_plain_letter(#[trigger] text[i]));
    }
    if forall|i: int| 0 <= i < text.len() ==> 'A' <= (#[trigger] text[i]) <= 'Z' || '0' <= text[i]
        <= '9' || text[i] == '_' {
        ascii_bytes_are_the_text(text);
        assert forall|i: int| 0 <= i < utf8(text).len() implies is_d_character(
            #[trigger] utf8(text)[i],
        ) by {
            let character = text[i];
            assert(is_plain_letter(character));
        }
    }
}

/// A text is made of characters that a nonstandard name may use exactly when each of its
/// characters is a visible ASCII character and neither a slash nor a backslash.
pub proof fn nonstandard_characters_are_visible(text: Seq<char>)
    ensures
        nonstandard_characters(utf8(text)) <==> forall|i: int|
            0 <= i < text.len() ==> '!' <= (#[trigger] text[i]) <= '~' && text[i] != '/' && text[i]
                != '\\',
{
    if nonstandard_characters(utf8(text)) {
        ascii_text_is_its_bytes(text);
        assert forall|i: int| 0 <= i < text.len() implies '!' <= (#[trigger] text[i]) <= '~'
            && text[i] != '/' && text[i] != '\\' by {
            assert(is_nonstandard_character(utf8(text)[i]));
        }
    }
    if forall|i: int|
        0 <= i < text.len() ==> '!' <= (#[trigger] text[i]) <= '~' && text[i] != '/' && text[i]
            != '\\' {
        ascii_bytes_are_the_text(text);
        assert forall|i: int| 0 <= i < utf8(text).len() implies is_nonstandard_character(
            #[trigger] utf8(text)[i],
        ) by {
            let character = text[i];
            assert('!' <= text[i] <= '~');
        }
    }
}

/// A path without a slash is checked as the one name that it is.
proof fn lone_name_is_checked(name: Seq<char>, file: bool, policy: IdentifierPolicy)
    requires
        name.len() > 0,
        forall|i: int| 0 <= i < name.len() ==> #[trigger] name[i] != '/',
    ensures
        path_check(name, file, policy) == component_check(name, file, policy),
{
    last_index_of_unique(name, '/', -1);
    assert(components(name) == seq![name]);
    let checks = component_checks(components(name), file, policy);
    reveal_with_fuel(first_failure, 2);
    assert(name.last() != '/' && name[0] != '/');
    assert(checks(0) == component_check(name, file, policy));
}

/// The level 1 rule for the name of a file: one to eight letters of `A` to `Z`, digits and
/// underscores, and then nothing, or a period and up to three more of them.
pub proof fn level1_file_name(name: Seq<char>)
    requires
        name.len() > 0,
        forall|i: int| 0 <= i < name.len() ==> #[trigger] name[i] != '/',
    ensures
        path_check(name, true, IdentifierPolicy::IsoLevel1) is Ok <==> exists|stem: int|
            {
                &&& 1 <= stem <= 8
                &&& stem <= name.len()
                &&& stem < name.len() ==> name[stem] == '.' && name.len() - stem <= 4
                &&& #[trigger] letters_but_at(name, stem)
            },
        is_level1(name, true) == (path_check(name, true, IdentifierPolicy::IsoLevel1) is Ok),
{
    lone_name_is_checked(name, true, IdentifierPolicy::IsoLevel1);
    let (stem, extension) = stem_and_extension(name);
    last_index_of_is_last(name, '.');
    d_characters_are_letters(stem);
    d_characters_are_letters(extension);
    let ok = component_check(name, true, IdentifierPolicy::IsoLevel1) is Ok;
    if ok {
        assert(utf8(stem).len() == stem.len() && utf8(extension).len() == extension.len()) by {
            d_characters_are_letters(stem);
            d_characters_are_letters(extension);
        }
        let at = stem.len() as int;
        assert forall|i: int| 0 <= i < name.len() && i != at implies is_plain_letter(
            #[trigger] name[i],
        ) by {
            if i < at {
                assert(stem[i] == name[i]);
            } else {
                assert(extension[i - at - 1] == name[i]);
            }
        }
        assert(letters_but_at(name, at));
    }
    if exists|at: int|
        {
            &&& 1 <= at <= 8
            &&& at <= name.len()
            &&& at < name.len() ==> name[at] == '.' && name.len() - at <= 4
            &&& #[trigger] letters_but_at(name, at)
        } {
        let at = choose|at: int|
            {
                &&& 1 <= at <= 8
                &&& at <= name.len()
                &&& at < name.len() ==> name[at] == '.' && name.len() - at <= 4
                &&& #[trigger] letters_but_at(name, at)
            };
        assert forall|i: int| at < i < name.len() implies name[i] != '.' by {
            assert(is_plain_letter(name[i]));
        }
        if at < name.len() {
            last_index_of_unique(name, '.', at);
            assert(stem =~= name.subrange(0, at));
            assert(extension =~= name.subrange(at + 1, name.len() as int));
        } else {
            assert forall|i: int| -1 < i < name.len() implies name[i] != '.' by {
                assert(is_plain_letter(name[i]));
            }
            last_index_of_unique(name, '.', -1);
            assert(stem =~= name);
            assert(extension =~= Seq::empty());
        }
        assert forall|i: int| 0 <= i < stem.len() implies is_plain_letter(#[trigger] stem[i]) by {
            assert(stem[i] == name[i]);
        }
        assert forall|i: int| 0 <= i < extension.len() implies is_plain_letter(
            #[trigger] extension[i],
        ) by {
            assert(extension[i] == name[at + 1 + i]);
        }
        assert(is_plain_letter(name[0]));
        assert(!is_dots(name)) by {
            assert(name[0] != '.');
        }
        d_characters_are_letters(stem);
        d_characters_are_letters(extension);
    }
}

/// Every character but the one at a place is an upper-case letter, a digit or an
/// underscore.
pub open spec fn letters_but_at(name: Seq<char>, place: int) -> bool {
    forall|i: int|
        0 <= i < name.len() && i != place ==> 'A' <= (#[trigger] name[i]) <= 'Z' || '0' <= name[i]
            <= '9' || name[i] == '_'
}

/// The level 1 rule for the name of a directory: no more than eight letters of `A` to `Z`,
/// digits and underscores.
pub proof fn level1_directory_name(name: Seq<char>)
    requires
        name.len() > 0,
        forall|i: int| 0 <= i < name.len() ==> #[trigger] name[i] != '/',
    ensures
        path_check(name, false, IdentifierPolicy::IsoLevel1) is Ok <==> name.len() <= 8 && forall|
            i: int,
        |
            0 <= i < name.len() ==> 'A' <= (#[trigger] name[i]) <= 'Z' || '0' <= name[i] <= '9'
                || name[i] == '_',
        is_level1(name, false) == (path_check(name, false, IdentifierPolicy::IsoLevel1) is Ok),
{
    lone_name_is_checked(name, false, IdentifierPolicy::IsoLevel1);
    d_characters_are_letters(name);
    if d_characters(utf8(name)) {
        assert('A' <= name[0] <= 'Z' || '0' <= name[0] <= '9' || name[0] == '_');
        assert(!is_dots(name));
    }
}

/// The rule for a nonstandard name, of a file or of a directory: visible ASCII characters
/// without slashes and backslashes, and neither one period alone nor two.
pub proof fn nonstandard_name(name: Seq<char>, file: bool)
    requires
        name.len() > 0,
        forall|i: int| 0 <= i < name.len() ==> #[trigger] name[i] != '/',
    ensures
        path_check(name, file, IdentifierPolicy::NonstandardAscii) is Ok <==> name != seq!['.']
            && name != seq!['.', '.'] && forall|i: int|
            0 <= i < name.len() ==> '!' <= (#[trigger] name[i]) <= '~' && name[i] != '\\',
        is_nonstandard_identifier(name) == (path_check(
            name,
            file,
            IdentifierPolicy::NonstandardAscii,
        ) is Ok),
{
    lone_name_is_checked(name, file, IdentifierPolicy::NonstandardAscii);
    nonstandard_characters_are_visible(name);
    assert(forall|i: int| 0 <= i < name.len() ==> #[trigger] name[i] != '/');
}

/// The rule for a path: it is that of a directory, a slash and a name, where the directory
/// passes as one and the name passes as what it names. It may not begin or end with a slash.
pub proof fn path_is_checked_by_its_parts(
    directory: Seq<char>,
    name: Seq<char>,
    file: bool,
    policy: IdentifierPolicy,
)
    requires
        directory.len() > 0,
        directory[directory.len() - 1] != '/',
        name.len() > 0,
        forall|i: int| 0 <= i < name.len() ==> #[trigger] name[i] != '/',
    ensures
        path_check(directory + seq!['/'] + name, file, policy) is Ok <==> path_check(
            directory,
            false,
            policy,
        ) is Ok && path_check(name, file, policy) is Ok,
        path_check(name + seq!['/'], file, policy) is Err,
        path_check(seq!['/'] + name, file, policy) is Err,
        path_check(Seq::empty(), file, policy) is Err,
{
    lone_name_is_checked(name, file, policy);
    let path = directory + seq!['/'] + name;
    let at = directory.len() as int;
    assert forall|i: int| at < i < path.len() implies path[i] != '/' by {
        assert(path[i] == name[i - at - 1]);
    }
    last_index_of_unique(path, '/', at);
    assert(path.subrange(0, at) =~= directory);
    assert(path.subrange(at + 1, path.len() as int) =~= name);
    let above = components(directory);
    let parts = components(path);
    assert(parts == above.push(name));
    assert(path.last() == name[name.len() - 1]);
    assert(path[0] == directory[0]);
    let checks = component_checks(parts, file, policy);
    let others = component_checks(above, false, policy);
    first_failure_ok(checks, 0, parts.len() as int);
    first_failure_ok(others, 0, above.len() as int);
    assert forall|i: int| 0 <= i < above.len() implies #[trigger] checks(i) == others(i) by {
        assert(parts[i] == above[i]);
    }
    assert(parts[above.len() as int] == name);
    assert(checks(above.len() as int) == component_check(name, file, policy));
    if path_check(directory, false, policy) is Ok && path_check(name, file, policy) is Ok {
        assert forall|i: int| 0 <= i < parts.len() implies (#[trigger] checks(i)) is Ok by {
            if i < above.len() {
                assert(others(i) is Ok);
            }
        }
    }
    if path_check(path, file, policy) is Ok {
        assert forall|i: int| 0 <= i < above.len() implies (#[trigger] others(i)) is Ok by {
            assert(checks(i) is Ok);
        }
        assert(checks(above.len() as int) is Ok);
    }
    assert((name + seq!['/']).last() == '/');
    assert((seq!['/'] + name)[0] == '/');
    assert(!is_relative(name + seq!['/']) && !is_relative(seq!['/'] + name));
}

/// The extension of a file name is what stands behind its last period.
pub proof fn name_is_split_at_its_last_period(stem: Seq<char>, extension: Seq<char>)
    requires
        forall|i: int| 0 <= i < extension.len() ==> #[trigger] extension[i] != '.',
    ensures
        stem_and_extension(stem + seq!['.'] + extension) == (stem, extension),
        (forall|i: int| 0 <= i < stem.len() ==> #[trigger] stem[i] != '.')
            ==> stem_and_extension(stem) == (stem, Seq::<char>::empty()),
{
    let name = stem + seq!['.'] + extension;
    let at = stem.len() as int;
    assert forall|i: int| at < i < name.len() implies name[i] != '.' by {
        assert(name[i] == extension[i - at - 1]);
    }
    last_index_of_unique(name, '.', at);
    assert(name.subrange(0, at) =~= stem);
    assert(name.subrange(at + 1, name.len() as int) =~= extension);
    assert(split_last(name, '.') == Some((stem, extension)));
    if forall|i: int| 0 <= i < stem.len() ==> #[trigger] stem[i] != '.' {
        last_index_of_unique(stem, '.', -1);
    }
}

/// A file name of one to eight characters and, behind a period, up to three more passes
/// under the level 1 policy exactly when each of those characters is one of `A` to `Z`, `0` to
/// `9` and `_`; so does a name of one to eight characters alone. A longer stem, a longer
/// extension and an empty stem do not pass.
pub proof fn level1_file_name_of_parts(stem: Seq<char>, extension: Seq<char>)
    requires
        forall|i: int| 0 <= i < stem.len() ==> #[trigger] stem[i] != '/',
        forall|i: int|
            0 <= i < extension.len() ==> #[trigger] extension[i] != '/' && extension[i] != '.',
    ensures
        path_check(stem + seq!['.'] + extension, true, IdentifierPolicy::IsoLevel1) is Ok <==> {
            &&& 1 <= stem.len() <= 8
            &&& extension.len() <= 3
            &&& forall|i: int|
                0 <= i < stem.len() ==> 'A' <= (#[trigger] stem[i]) <= 'Z' || '0' <= stem[i] <= '9'
                    || stem[i] == '_'
            &&& forall|i: int|
                0 <= i < extension.len() ==> 'A' <= (#[trigger] extension[i]) <= 'Z' || '0'
                    <= extension[i] <= '9' || extension[i] == '_'
        },
        (forall|i: int| 0 <= i < stem.len() ==> #[trigger] stem[i] != '.') ==> (path_check(
            stem,
            true,
            IdentifierPolicy::IsoLevel1,
        ) is Ok <==> {
            &&& 1 <= stem.len() <= 8
            &&& forall|i: int|
                0 <= i < stem.len() ==> 'A' <= (#[trigger] stem[i]) <= 'Z' || '0' <= stem[i] <= '9'
                    || stem[i] == '_'
        }),
{
    let name = stem + seq!['.'] + extension;
    assert forall|i: int| 0 <= i < name.len() implies #[trigger] name[i] != '/' by {
        if i < stem.len() {
            assert(name[i] == stem[i]);
        } else if i > stem.len() {
            assert(name[i] == extension[i - stem.len() - 1]);
        }
    }
    lone_name_is_checked(name, true, IdentifierPolicy::IsoLevel1);
    name_is_split_at_its_last_period(stem, extension);
    d_characters_are_letters(stem);
    d_characters_are_letters(extension);
    d_characters_are_letters(Seq::empty());
    if stem.len() > 0 {
        lone_name_is_checked(stem, true, IdentifierPolicy::IsoLevel1);
        assert(stem[0] == name[0]);
        if is_dots(name) {
            assert(name[0] == '.');
        }
        if is_dots(stem) {
            assert(stem[0] == '.');
        }
    }
}

} // verus!
