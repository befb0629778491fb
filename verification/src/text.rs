//! Text as sequences of characters: comparing, cutting and joining.
use vstd::prelude::*;
use vstd::slice::slice_subrange;

use crate::bytes::same_bytes;
use crate::model::{views, views_push};

verus! {

/// `String::push` adds one character at the end.
pub assume_specification[ String::push ](text: &mut String, character: char)
    ensures
        final(text)@ == old(text)@.push(character),
;

/// `char::from_u32` gives the character of a scalar value, and nothing for a
/// surrogate or a value past the last scalar.
pub assume_specification[ char::from_u32 ](value: u32) -> (result: Option<char>)
    ensures
        match result {
            Some(character) => character as u32 == value && vstd::utf8::is_scalar(value),
            None => !vstd::utf8::is_scalar(value),
        },
;

/// `String::from_utf8` takes exactly the well-formed UTF-8 sequences; the text
/// is what they encode. The rejected bytes are not kept.
#[verifier::external_body]
fn call_from_utf8(bytes: Vec<u8>) -> (result: Option<String>)
    ensures
        match result {
            Some(text) => vstd::utf8::valid_utf8(bytes@) && text@ == vstd::utf8::decode_utf8(bytes@),
            None => !vstd::utf8::valid_utf8(bytes@),
        },
{
    String::from_utf8(bytes).ok()
}

/// Reads UTF-8.
pub fn from_utf8(bytes: Vec<u8>) -> (result: Option<String>)
    ensures
        match result {
            Some(text) => vstd::utf8::valid_utf8(bytes@) && text@ == vstd::utf8::decode_utf8(bytes@),
            None => !vstd::utf8::valid_utf8(bytes@),
        },
{
    call_from_utf8(bytes)
}

/// The characters of a text.
pub fn chars_of(text: &str) -> (characters: Vec<char>)
    ensures
        characters@ == text@,
{
    let length: usize = text.unicode_len();
    let mut characters: Vec<char> = Vec::with_capacity(length);
    for character in iter: text.chars()
        invariant
            characters@ == text@.take(iter.index()),
            iter.seq() == text@,
    {
        assert(text@.take(iter.index() + 1) =~= text@.take(iter.index()).push(character));
        characters.push(character);
    }
    assert(text@.take(text@.len() as int) =~= text@);
    characters
}

/// The text that a run of characters makes.
pub fn text_of(characters: &[char]) -> (text: String)
    ensures
        text@ == characters@,
{
    let mut text: String = String::new();
    let mut i: usize = 0;
    while i < characters.len()
        invariant
            i <= characters.len(),
            text@ == characters@.take(i as int),
        decreases characters.len() - i,
    {
        text.push(characters[i]);
        i = i + 1;
        assert(text@ =~= characters@.take(i as int));
    }
    assert(characters@.take(characters.len() as int) =~= characters@);
    text
}

/// The UTF-8 bytes of a text.
pub open spec fn utf8(text: Seq<char>) -> Seq<u8> {
    vstd::utf8::encode_utf8(text)
}

/// Whether two texts are the same.
pub fn same_text(left: &str, right: &str) -> (same: bool)
    ensures
        same <==> left@ == right@,
{
    proof {
        vstd::utf8::encode_utf8_decode_utf8(left@);
        vstd::utf8::encode_utf8_decode_utf8(right@);
    }
    same_bytes(left.as_bytes(), right.as_bytes())
}

/// The index of the last `character`, or -1.
pub open spec fn last_index_of(text: Seq<char>, character: char) -> int
    decreases text.len(),
{
    if text.len() == 0 {
        -1
    } else if text.last() == character {
        text.len() - 1
    } else {
        last_index_of(text.drop_last(), character)
    }
}

/// The last occurrence is an occurrence, and none follows it.
pub proof fn last_index_of_is_last(text: Seq<char>, character: char)
    ensures
        -1 <= last_index_of(text, character) < text.len(),
        last_index_of(text, character) >= 0 ==> text[last_index_of(text, character)] == character,
        forall|i: int| last_index_of(text, character) < i < text.len() ==> text[i] != character,
    decreases text.len(),
{
    if text.len() > 0 && text.last() != character {
        let shorter = text.drop_last();
        last_index_of_is_last(shorter, character);
        assert forall|i: int| last_index_of(text, character) < i < text.len() implies text[i]
            != character by {
            if i < shorter.len() {
                assert(shorter[i] == text[i]);
            }
        }
    }
}

/// An occurrence that none follows is the last one.
pub proof fn last_index_of_unique(text: Seq<char>, character: char, index: int)
    requires
        -1 <= index < text.len(),
        index >= 0 ==> text[index] == character,
        forall|i: int| index < i < text.len() ==> text[i] != character,
    ensures
        last_index_of(text, character) == index,
{
    last_index_of_is_last(text, character);
}

/// Finds the last `character`, as the number of characters up to and with it.
fn find_last(text: &[char], character: char) -> (end: usize)
    ensures
        end == last_index_of(text@, character) + 1,
{
    let mut end: usize = text.len();
    assert(text@.take(end as int) =~= text@);
    while end > 0 && text[end - 1] != character
        invariant
            end <= text.len(),
            last_index_of(text@.take(end as int), character) == last_index_of(text@, character),
        decreases end,
    {
        assert(text@.take(end as int).drop_last() =~= text@.take(end - 1));
        end = end - 1;
    }
    end
}

/// The two parts of a text around the last `character`.
pub open spec fn split_last(text: Seq<char>, character: char) -> Option<(Seq<char>, Seq<char>)> {
    let index = last_index_of(text, character);
    if index < 0 {
        None
    } else {
        Some((text.subrange(0, index), text.subrange(index + 1, text.len() as int)))
    }
}

/// Cuts a text at the last `character`, which neither part holds.
pub fn cut_last(text: &str, character: char) -> (result: Option<(String, String)>)
    ensures
        match result {
            Some(parts) => split_last(text@, character) == Some((parts.0@, parts.1@)),
            None => split_last(text@, character) is None,
        },
{
    let characters: Vec<char> = chars_of(text);
    let end: usize = find_last(&characters, character);
    proof {
        last_index_of_is_last(text@, character);
    }
    if end == 0 {
        None
    } else {
        let head: String = text_of(slice_subrange(&characters, 0, end - 1));
        let tail: String = text_of(slice_subrange(&characters, end, characters.len()));
        Some((head, tail))
    }
}

/// The path of the filesystem root.
pub const ROOT_PATH: &'static str = ".";

/// The path of the filesystem root, as characters.
pub open spec fn root_path() -> Seq<char> {
    seq!['.']
}

/// Whether a path is that of the filesystem root.
pub fn is_root(path: &str) -> (root: bool)
    ensures
        root <==> path@ == root_path(),
{
    proof {
        reveal_strlit(".");
        assert("."@ =~= root_path());
    }
    same_text(path, ROOT_PATH)
}

/// A new text that holds the path of the filesystem root.
pub fn root_text() -> (path: String)
    ensures
        path@ == root_path(),
{
    proof {
        reveal_strlit(".");
        assert("."@ =~= root_path());
    }
    ROOT_PATH.to_owned()
}

/// The directory that a path lies in: what stands before the last slash, or the
/// root. The root lies in itself.
pub open spec fn parent_of(path: Seq<char>) -> Seq<char> {
    let index = last_index_of(path, '/');
    if path == root_path() || index < 0 {
        root_path()
    } else {
        path.subrange(0, index)
    }
}

/// The last component of a path: what stands after the last slash.
pub open spec fn name_of(path: Seq<char>) -> Seq<char> {
    path.subrange(last_index_of(path, '/') + 1, path.len() as int)
}

/// The directory that `path` lies in.
pub fn parent_path(path: &str) -> (parent: String)
    ensures
        parent@ == parent_of(path@),
{
    if is_root(path) {
        return root_text();
    }
    match cut_last(path, '/') {
        Some((parent, _)) => parent,
        None => root_text(),
    }
}

/// The last component of `path`.
pub fn file_name(path: &str) -> (name: String)
    ensures
        name@ == name_of(path@),
{
    let characters: Vec<char> = chars_of(path);
    let end: usize = find_last(&characters, '/');
    proof {
        last_index_of_is_last(path@, '/');
    }
    text_of(slice_subrange(&characters, end, characters.len()))
}

/// A path below a directory; the empty text stands for the root.
pub open spec fn join(parent: Seq<char>, name: Seq<char>) -> Seq<char> {
    if parent.len() == 0 {
        name
    } else {
        parent.push('/') + name
    }
}

/// Joins a directory and a name.
pub fn join_path(parent: &str, name: &str) -> (path: String)
    ensures
        path@ == join(parent@, name@),
{
    if parent.is_empty() {
        return name.to_owned();
    }
    let mut path: String = parent.to_owned();
    path.push('/');
    path.append(name);
    path
}

/// The components of a path, which slashes separate.
pub open spec fn components(path: Seq<char>) -> Seq<Seq<char>>
    decreases path.len(),
{
    let index = last_index_of(path, '/');
    if index < 0 || index >= path.len() {
        seq![path]
    } else {
        components(path.subrange(0, index)).push(path.subrange(index + 1, path.len() as int))
    }
}

/// Cuts a path at its slashes.
pub fn path_components(path: &str) -> (parts: Vec<String>)
    ensures
        views(parts@) == components(path@),
{
    let characters: Vec<char> = chars_of(path);
    let mut reversed: Vec<String> = Vec::new();
    let mut end: usize = characters.len();
    let mut done: bool = false;
    let ghost whole = path@;
    assert(characters@.take(end as int) =~= characters@);
    assert(views(reversed@).reverse() =~= Seq::<Seq<char>>::empty());
    while !done
        invariant
            characters@ == whole,
            end <= characters.len(),
            !done ==> components(whole) == components(whole.take(end as int)) + views(
                reversed@,
            ).reverse(),
            done ==> components(whole) == views(reversed@).reverse(),
        decreases (if done { 0int } else { 1int + end }),
    {
        let head: &[char] = slice_subrange(&characters, 0, end);
        assert(head@ =~= whole.take(end as int));
        let start: usize = find_last(head, '/');
        proof {
            last_index_of_is_last(head@, '/');
        }
        let part: String = text_of(slice_subrange(&characters, start, end));
        let ghost before = views(reversed@);
        reversed.push(part);
        proof {
            assert(part@ =~= head@.subrange(start as int, end as int));
            assert(views(reversed@) =~= before.push(part@));
            assert(views(reversed@).reverse() =~= seq![part@] + before.reverse());
        }
        if start == 0 {
            proof {
                assert(part@ =~= head@);
                assert(components(head@) =~= seq![part@]);
            }
            done = true;
        } else {
            proof {
                let shorter = whole.take(start - 1);
                assert(head@.subrange(0, start - 1) =~= shorter);
                assert(components(head@) == components(shorter).push(part@));
                assert(components(shorter).push(part@) + before.reverse() =~= components(shorter)
                    + (seq![part@] + before.reverse()));
            }
            end = start - 1;
        }
    }
    let mut parts: Vec<String> = Vec::new();
    while reversed.len() > 0
        invariant
            views(parts@) + views(reversed@).reverse() == components(whole),
        decreases reversed.len(),
    {
        let ghost rest = reversed@;
        match reversed.pop() {
            Some(part) => {
                let ghost before = views(parts@);
                parts.push(part);
                proof {
                    assert(views(parts@) =~= before.push(part@));
                    assert(views(rest) =~= views(reversed@).push(part@));
                    assert(views(rest).reverse() =~= seq![part@] + views(reversed@).reverse());
                    assert(before + (seq![part@] + views(reversed@).reverse()) =~= before.push(part@)
                        + views(reversed@).reverse());
                }
            },
            None => {},
        }
    }
    assert(views(parts@) + views(reversed@).reverse() =~= views(parts@));
    parts
}

/// The decimal digits of a number, without leading zeros.
pub open spec fn decimal(value: nat) -> Seq<char>
    decreases value,
{
    if value < 10 {
        seq![digit_char(value as int)]
    } else {
        decimal(value / 10).push(digit_char((value % 10) as int))
    }
}

/// The character of a decimal digit.
pub open spec fn digit_char(value: int) -> char {
    ('0' as int + value) as char
}

/// Writes a decimal digit.
pub fn digit(value: u8) -> (character: char)
    requires
        value < 10,
    ensures
        character == digit_char(value as int),
{
    (48u8 + value) as char
}

/// Appends the decimal digits of a number.
pub fn push_decimal(text: &mut String, value: u64)
    ensures
        final(text)@ == old(text)@ + decimal(value as nat),
    decreases value,
{
    if value < 10 {
        text.push(digit(value as u8));
        assert(text@ =~= old(text)@ + decimal(value as nat));
    } else {
        push_decimal(text, value / 10);
        text.push(digit((value % 10) as u8));
        assert(text@ =~= old(text)@ + decimal(value as nat));
    }
}

/// The decimal digits of a number, with zeros before them up to a width.
pub open spec fn padded(value: nat, width: nat) -> Seq<char>
    decreases value + width,
{
    if value < 10 && width <= 1 {
        seq![digit_char(value as int)]
    } else {
        padded(
            value / 10,
            if width == 0 {
                0
            } else {
                (width - 1) as nat
            },
        ).push(digit_char((value % 10) as int))
    }
}

/// Appends the decimal digits of a number, with zeros before them up to a width.
pub fn push_padded(text: &mut String, value: u16, width: u8)
    ensures
        final(text)@ == old(text)@ + padded(value as nat, width as nat),
    decreases value + width,
{
    if value < 10 && width <= 1 {
        text.push(digit(value as u8));
        assert(text@ =~= old(text)@ + padded(value as nat, width as nat));
    } else {
        push_padded(
            text,
            value / 10,
            if width == 0 {
                0
            } else {
                width - 1
            },
        );
        text.push(digit((value % 10) as u8));
        assert(text@ =~= old(text)@ + padded(value as nat, width as nat));
    }
}

/// The number of characters left when trailing spaces and zero characters go.
pub open spec fn trimmed_length(text: Seq<char>) -> nat
    decreases text.len(),
{
    if text.len() == 0 {
        0
    } else if text.last() == ' ' || text.last() == '\0' {
        trimmed_length(text.drop_last())
    } else {
        text.len()
    }
}

/// A text without trailing spaces and zero characters.
pub open spec fn trimmed(text: Seq<char>) -> Seq<char> {
    text.subrange(0, trimmed_length(text) as int)
}

/// Trimming leaves no more than there was.
pub broadcast proof fn trimmed_length_bound(text: Seq<char>)
    ensures
        #[trigger] trimmed_length(text) <= text.len(),
    decreases text.len(),
{
    if text.len() > 0 {
        trimmed_length_bound(text.drop_last());
    }
}

/// Removes trailing spaces and zero characters.
pub fn trim_fixed(text: &str) -> (result: String)
    ensures
        result@ == trimmed(text@),
{
    let characters: Vec<char> = chars_of(text);
    let mut end: usize = characters.len();
    assert(characters@.take(end as int) =~= characters@);
    while end > 0 && (characters[end - 1] == ' ' || characters[end - 1] == '\0')
        invariant
            end <= characters.len(),
            trimmed_length(characters@.take(end as int)) == trimmed_length(characters@),
        decreases end,
    {
        assert(characters@.take(end as int).drop_last() =~= characters@.take(end - 1));
        end = end - 1;
    }
    proof {
        assert(characters@.take(end as int).len() == end);
    }
    text_of(slice_subrange(&characters, 0, end))
}

/// Whether a text starts with a given prefix.
pub open spec fn has_prefix(text: Seq<char>, prefix: Seq<char>) -> bool {
    text.len() >= prefix.len() && text.subrange(0, prefix.len() as int) == prefix
}

/// A text without its prefix.
pub fn strip_prefix(text: &str, prefix: &str) -> (rest: Option<String>)
    ensures
        match rest {
            Some(rest) => has_prefix(text@, prefix@) && rest@ == text@.subrange(
                prefix@.len() as int,
                text@.len() as int,
            ),
            None => !has_prefix(text@, prefix@),
        },
{
    let characters: Vec<char> = chars_of(text);
    let expected: Vec<char> = chars_of(prefix);
    if characters.len() < expected.len() {
        return None;
    }
    let mut i: usize = 0;
    while i < expected.len()
        invariant
            i <= expected.len() <= characters.len(),
            characters@ == text@,
            expected@ == prefix@,
            forall|j: int| 0 <= j < i ==> characters@[j] == expected@[j],
        decreases expected.len() - i,
    {
        if characters[i] != expected[i] {
            assert(text@.subrange(0, prefix@.len() as int)[i as int] != prefix@[i as int]);
            return None;
        }
        i = i + 1;
    }
    assert(text@.subrange(0, prefix@.len() as int) =~= prefix@);
    Some(text_of(slice_subrange(&characters, expected.len(), characters.len())))
}

/// The digits of a number, after an optional plus sign.
pub open spec fn unsigned(text: Seq<char>) -> Seq<char> {
    if text.len() > 0 && text[0] == '+' {
        text.skip(1)
    } else {
        text
    }
}

/// The value of a digit in a radix of at most 16.
pub open spec fn digit_value(character: char, radix: int) -> Option<int> {
    let value = if '0' <= character <= '9' {
        character as int - '0' as int
    } else if 'a' <= character <= 'f' {
        character as int - 'a' as int + 10
    } else if 'A' <= character <= 'F' {
        character as int - 'A' as int + 10
    } else {
        16
    };
    if value < radix {
        Some(value)
    } else {
        None
    }
}

/// Every character is a digit.
pub open spec fn all_digits(text: Seq<char>, radix: int) -> bool {
    forall|i: int| 0 <= i < text.len() ==> digit_value(#[trigger] text[i], radix) is Some
}

/// The number that digits spell.
pub open spec fn number_value(digits: Seq<char>, radix: int) -> int
    decreases digits.len(),
{
    if digits.len() == 0 {
        0
    } else {
        number_value(digits.drop_last(), radix) * radix + digit_value(
            digits.last(),
            radix,
        ).unwrap()
    }
}

/// The number below 256 that a text spells in a radix, with an optional plus sign.
pub open spec fn parsed_byte(text: Seq<char>, radix: int) -> Option<u8> {
    let digits = unsigned(text);
    if digits.len() > 0 && all_digits(digits, radix) && number_value(digits, radix) <= 255 {
        Some(number_value(digits, radix) as u8)
    } else {
        None
    }
}

/// Digits spell no negative number, and no less than their beginning does.
pub proof fn number_value_grows(digits: Seq<char>, radix: int, count: int)
    requires
        0 <= count <= digits.len(),
        radix == 10 || radix == 16,
        all_digits(digits, radix),
    ensures
        number_value(digits.take(count), radix) >= 0,
        number_value(digits, radix) >= number_value(digits.take(count), radix),
    decreases digits.len(),
{
    if digits.len() == 0 {
        assert(digits.take(count) =~= digits);
    } else {
        let shorter = digits.drop_last();
        assert forall|i: int| 0 <= i < shorter.len() implies digit_value(
            #[trigger] shorter[i],
            radix,
        ) is Some by {
            assert(shorter[i] == digits[i]);
        }
        assert(digit_value(digits[digits.len() - 1], radix) is Some);
        if count < digits.len() {
            number_value_grows(shorter, radix, count);
            assert(shorter.take(count) =~= digits.take(count));
        } else {
            number_value_grows(shorter, radix, shorter.len() as int);
            assert(shorter.take(shorter.len() as int) =~= shorter);
            assert(digits.take(count) =~= digits);
        }
    }
}

fn read_digit(character: char, radix: u32) -> (value: Option<u32>)
    requires
        radix == 10 || radix == 16,
    ensures
        match value {
            Some(value) => digit_value(character, radix as int) == Some(value as int) && value < 16,
            None => digit_value(character, radix as int) is None,
        },
{
    let value: u32 = if '0' <= character && character <= '9' {
        character as u32 - 48
    } else if 'a' <= character && character <= 'f' {
        character as u32 - 97 + 10
    } else if 'A' <= character && character <= 'F' {
        character as u32 - 65 + 10
    } else {
        16
    };
    if value < radix {
        Some(value)
    } else {
        None
    }
}

/// Reads a number below 256.
pub fn parse_byte(text: &str, radix: u32) -> (value: Option<u8>)
    requires
        radix == 10 || radix == 16,
    ensures
        value == parsed_byte(text@, radix as int),
{
    let characters: Vec<char> = chars_of(text);
    let start: usize = if characters.len() > 0 && characters[0] == '+' {
        1
    } else {
        0
    };
    let ghost digits = unsigned(text@);
    assert(digits =~= characters@.skip(start as int));
    if characters.len() == start {
        return None;
    }
    let mut k: usize = start;
    while k < characters.len()
        invariant
            start <= k <= characters.len(),
            radix == 10 || radix == 16,
            digits == characters@.skip(start as int),
            digits == unsigned(text@),
            forall|i: int|
                0 <= i < k - start ==> digit_value(#[trigger] digits[i], radix as int) is Some,
        decreases characters.len() - k,
    {
        assert(digits[k - start] == characters@[k as int]);
        if read_digit(characters[k], radix).is_none() {
            assert(digit_value(digits[k - start], radix as int) is None);
            return None;
        }
        k = k + 1;
    }
    let mut value: u32 = 0;
    let mut i: usize = start;
    assert(digits.take(0) =~= Seq::empty());
    while i < characters.len()
        invariant
            start <= i <= characters.len(),
            radix == 10 || radix == 16,
            digits == characters@.skip(start as int),
            digits == unsigned(text@),
            digits.len() > 0,
            digits.len() == characters.len() - start,
            all_digits(digits, radix as int),
            value <= 255,
            value == number_value(digits.take(i - start), radix as int),
        decreases characters.len() - i,
    {
        assert(digits[i - start] == characters@[i as int]);
        let ghost longer = digits.take(i - start + 1);
        assert(longer.drop_last() =~= digits.take(i - start));
        assert(longer.last() == digits[i - start]);
        let digit: u32 = match read_digit(characters[i], radix) {
            Some(digit) => digit,
            None => 0,
        };
        let next: u32 = if radix == 10 {
            value * 10 + digit
        } else {
            value * 16 + digit
        };
        if next > 255 {
            proof {
                number_value_grows(digits, radix as int, i - start + 1);
            }
            return None;
        }
        value = next;
        i = i + 1;
    }
    assert(digits.take(i - start) =~= digits);
    Some(value as u8)
}

/// The parts of a text between separators.
pub open spec fn split_at(text: Seq<char>, separator: char) -> Seq<Seq<char>>
    decreases text.len(),
{
    match split_last(text, separator) {
        None => seq![text],
        Some((head, tail)) => if head.len() < text.len() {
            split_at(head, separator).push(tail)
        } else {
            seq![text]
        },
    }
}

/// Cuts a text at every separator.
pub fn split(text: &str, separator: char) -> (parts: Vec<String>)
    ensures
        views(parts@) == split_at(text@, separator),
    decreases text@.len(),
{
    match cut_last(text, separator) {
        None => {
            let mut parts: Vec<String> = Vec::new();
            parts.push(text.to_owned());
            assert(views(parts@) =~= seq![text@]);
            parts
        },
        Some((head, tail)) => {
            proof {
                last_index_of_is_last(text@, separator);
            }
            let mut parts: Vec<String> = split(head.as_str(), separator);
            proof {
                views_push(parts@, tail);
            }
            parts.push(tail);
            parts
        },
    }
}

} // verus!
