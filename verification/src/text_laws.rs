//! How texts, paths and numbers in texts fit together.
use vstd::prelude::*;

use crate::raw_cd::msf::{byte_text, msf_text};
use crate::text::{
    all_digits, components, decimal, digit_char, digit_value, join, last_index_of_unique, name_of,
    number_value, number_value_grows, padded, parent_of, parsed_byte, split_at, trimmed,
    trimmed_length_bound, unsigned,
};

verus! {

/// A path is a directory, a slash and a name: it lies in the directory, has the name, and
/// its components are those of the directory and the name. A name alone lies in the root.
pub proof fn path_is_directory_and_name(directory: Seq<char>, name: Seq<char>)
    requires
        directory.len() > 0,
        forall|i: int| 0 <= i < name.len() ==> #[trigger] name[i] != '/',
    ensures
        ({
            let path = directory + seq!['/'] + name;
            &&& join(directory, name) == path
            &&& parent_of(path) == directory
            &&& name_of(path) == name
            &&& components(path) == components(directory).push(name)
        }),
        join(Seq::empty(), name) == name,
        parent_of(name) == seq!['.'],
        name_of(name) == name,
        components(name) == seq![name],
{
    let path = directory + seq!['/'] + name;
    let at = directory.len() as int;
    assert forall|i: int| at < i < path.len() implies path[i] != '/' by {
        assert(path[i] == name[i - at - 1]);
    }
    last_index_of_unique(path, '/', at);
    last_index_of_unique(name, '/', -1);
    assert(path.subrange(0, at) =~= directory);
    assert(path.subrange(at + 1, path.len() as int) =~= name);
    assert(directory.push('/') + name =~= path);
    assert(path.len() > 1);
    assert(name.subrange(0, name.len() as int) =~= name);
}

/// A text is cut at every separator: the parts of what stands before the last one, and what
/// stands behind it.
pub proof fn text_is_cut_at_separators(head: Seq<char>, separator: char, tail: Seq<char>)
    requires
        forall|i: int| 0 <= i < tail.len() ==> #[trigger] tail[i] != separator,
    ensures
        split_at(head + seq![separator] + tail, separator) == split_at(head, separator).push(tail),
        split_at(tail, separator) == seq![tail],
{
    let text = head + seq![separator] + tail;
    let at = head.len() as int;
    assert forall|i: int| at < i < text.len() implies text[i] != separator by {
        assert(text[i] == tail[i - at - 1]);
    }
    last_index_of_unique(text, separator, at);
    last_index_of_unique(tail, separator, -1);
    assert(text.subrange(0, at) =~= head);
    assert(text.subrange(at + 1, text.len() as int) =~= tail);
}

/// What is cut off the end of a text is spaces and zero characters, and what is left does
/// not end with one.
pub proof fn only_padding_is_trimmed(text: Seq<char>)
    ensures
        ({
            let left = trimmed(text);
            &&& left.len() <= text.len()
            &&& left == text.take(left.len() as int)
            &&& forall|i: int|
                left.len() <= i < text.len() ==> #[trigger] text[i] == ' ' || text[i] == '\0'
            &&& left.len() > 0 ==> left[left.len() - 1] != ' ' && left[left.len() - 1] != '\0'
        }),
    decreases text.len(),
{
    trimmed_length_bound(text);
    if text.len() > 0 && (text.last() == ' ' || text.last() == '\0') {
        let less = text.drop_last();
        only_padding_is_trimmed(less);
        trimmed_length_bound(less);
        let left = trimmed(text);
        assert(left =~= trimmed(less));
        assert forall|i: int| left.len() <= i < text.len() implies #[trigger] text[i] == ' '
            || text[i] == '\0' by {
            if i < less.len() {
                assert(less[i] == text[i]);
            }
        }
    }
}

proof fn digit_is_spelled(value: int)
    requires
        0 <= value < 10,
    ensures
        digit_value(digit_char(value), 10) == Some(value),
        '0' <= digit_char(value) <= '9',
        digit_char(value) as int == 48 + value,
{
}

/// A number is written in decimal digits that spell it, and the first is no zero unless it is
/// the only one.
pub proof fn decimal_is_spelled(value: nat)
    ensures
        all_digits(decimal(value), 10),
        number_value(decimal(value), 10) == value,
        decimal(value).len() > 0,
        forall|i: int| 0 <= i < decimal(value).len() ==> '0' <= #[trigger] decimal(value)[i] <= '9',
        decimal(value)[0] == '0' ==> decimal(value).len() == 1,
        decimal(value)[decimal(value).len() - 1] as int == 48 + value % 10,
        value < 10 <==> decimal(value).len() == 1,
    decreases value,
{
    let text = decimal(value);
    digit_is_spelled((value % 10) as int);
    reveal_with_fuel(number_value, 2);
    if value < 10 {
        assert(text.drop_last() =~= Seq::empty());
    } else {
        decimal_is_spelled(value / 10);
        let head = decimal(value / 10);
        assert(text.drop_last() =~= head);
        assert forall|i: int| 0 <= i < text.len() implies digit_value(#[trigger] text[i], 10) is Some
            && '0' <= text[i] <= '9' by {
            if i < head.len() {
                assert(text[i] == head[i]);
                assert(digit_value(head[i], 10) is Some);
            }
        }
        assert(text[0] == head[0]);
        if head[0] == '0' {
            assert(head.len() == 1);
            assert(number_value(head, 10) == 0) by {
                assert(head.drop_last() =~= Seq::empty());
            }
        }
    }
}

/// A number that is written with a width spells the number, in no fewer digits than the
/// width, and in more only where the number takes them.
pub proof fn padded_is_spelled(value: nat, width: nat)
    ensures
        all_digits(padded(value, width), 10),
        number_value(padded(value, width), 10) == value,
        padded(value, width).len() >= width,
        padded(value, width).len() > width && padded(value, width).len() > 1 ==> padded(
            value,
            width,
        )[0] != '0',
        padded(value, width).len() > 0,
    decreases value + width,
{
    let text = padded(value, width);
    digit_is_spelled((value % 10) as int);
    reveal_with_fuel(number_value, 2);
    if value < 10 && width <= 1 {
        assert(text.drop_last() =~= Seq::empty());
    } else {
        let less = if width == 0 {
            0
        } else {
            (width - 1) as nat
        };
        let head = padded(value / 10, less);
        padded_is_spelled(value / 10, less);
        assert(text.drop_last() =~= head);
        assert forall|i: int| 0 <= i < text.len() implies digit_value(
            #[trigger] text[i],
            10,
        ) is Some by {
            if i < head.len() {
                assert(text[i] == head[i]);
                assert(digit_value(head[i], 10) is Some);
            }
        }
        assert(text[0] == head[0]);
        if text.len() > width && head[0] == '0' {
            assert(head.len() == 1);
            assert(number_value(head, 10) == 0) by {
                assert(head.drop_last() =~= Seq::empty());
            }
            assert(value < 10);
            assert(width <= 1);
        }
    }
}

/// The number below 256 that a text spells: one digit more makes it so many times larger,
/// and the value of the digit. A plus sign before it changes nothing.
pub proof fn number_grows_by_digits(text: Seq<char>, digit: char)
    requires
        text.len() > 0,
        text[0] != '+',
    ensures
        '0' <= digit <= '9' ==> (parsed_byte(text, 10) matches Some(value) ==> parsed_byte(
            text.push(digit),
            10,
        ) == (if value * 10 + (digit as int - 48) <= 255 {
            Some((value * 10 + (digit as int - 48)) as u8)
        } else {
            None
        })),
        !('0' <= digit <= '9') ==> parsed_byte(text.push(digit), 10) is None,
        '0' <= digit <= '9' ==> (parsed_byte(text, 16) matches Some(value) ==> parsed_byte(
            text.push(digit),
            16,
        ) == (if value * 16 + (digit as int - 48) <= 255 {
            Some((value * 16 + (digit as int - 48)) as u8)
        } else {
            None
        })),
        'a' <= digit <= 'f' ==> (parsed_byte(text, 16) matches Some(value) ==> parsed_byte(
            text.push(digit),
            16,
        ) == (if value * 16 + (digit as int - 87) <= 255 {
            Some((value * 16 + (digit as int - 87)) as u8)
        } else {
            None
        })),
        'A' <= digit <= 'F' ==> parsed_byte(text.push(digit), 16) == parsed_byte(
            text.push((digit as int + 32) as char),
            16,
        ),
        parsed_byte(seq!['+'] + text, 10) == parsed_byte(text, 10),
        parsed_byte(seq!['+'] + text, 16) == parsed_byte(text, 16),
        parsed_byte(Seq::empty(), 10) is None && parsed_byte(Seq::empty(), 16) is None,
        parsed_byte(seq!['+'], 10) is None && parsed_byte(seq!['+'], 16) is None,
{
    let more = text.push(digit);
    assert(unsigned(more) =~= more && unsigned(text) =~= text);
    assert(more.drop_last() =~= text);
    assert((seq!['+'] + text).skip(1) =~= text);
    assert(seq!['+'].skip(1) =~= Seq::<char>::empty());
    assert(more[more.len() - 1] == digit);
    assert(text.take(text.len() as int) =~= text);
    if all_digits(text, 10) {
        number_value_grows(text, 10, text.len() as int);
    }
    if all_digits(text, 16) {
        number_value_grows(text, 16, text.len() as int);
    }
    assert(more.last() == digit);
    assert forall|radix: int| #[trigger] all_digits(more, radix) == (all_digits(text, radix)
        && digit_value(digit, radix) is Some) by {
        if all_digits(more, radix) {
            assert forall|i: int| 0 <= i < text.len() implies digit_value(
                #[trigger] text[i],
                radix,
            ) is Some by {
                assert(digit_value(more[i], radix) is Some);
            }
            assert(digit_value(more[more.len() - 1], radix) is Some);
        }
        if all_digits(text, radix) && digit_value(digit, radix) is Some {
            assert forall|i: int| 0 <= i < more.len() implies digit_value(
                #[trigger] more[i],
                radix,
            ) is Some by {
                if i < text.len() {
                    assert(digit_value(text[i], radix) is Some);
                }
            }
        }
    }
    if 'A' <= digit <= 'F' {
        let lower = (digit as int + 32) as char;
        let other = text.push(lower);
        assert(unsigned(other) =~= other);
        assert(other.drop_last() =~= text);
        assert(other[other.len() - 1] == lower);
        assert(digit_value(digit, 16) == digit_value(lower, 16));
        assert(all_digits(other, 16) == all_digits(more, 16)) by {
            if all_digits(other, 16) {
                assert forall|i: int| 0 <= i < text.len() implies digit_value(
                    #[trigger] text[i],
                    16,
                ) is Some by {
                    assert(digit_value(other[i], 16) is Some);
                }
            }
            if all_digits(more, 16) {
                assert forall|i: int| 0 <= i < other.len() implies digit_value(
                    #[trigger] other[i],
                    16,
                ) is Some by {
                    if i < text.len() {
                        assert(digit_value(text[i], 16) is Some);
                    }
                }
            }
        }
    }
}

/// One digit spells its value.
pub proof fn digit_spells_its_value(digit: char)
    ensures
        '0' <= digit <= '9' ==> parsed_byte(seq![digit], 10) == Some((digit as int - 48) as u8)
            && parsed_byte(seq![digit], 16) == Some((digit as int - 48) as u8),
        'a' <= digit <= 'f' ==> parsed_byte(seq![digit], 16) == Some((digit as int - 87) as u8),
        'A' <= digit <= 'F' ==> parsed_byte(seq![digit], 16) == Some((digit as int - 55) as u8),
        !('0' <= digit <= '9') ==> parsed_byte(seq![digit], 10) is None,
{
    let text = seq![digit];
    assert(text[0] == digit);
    assert(text.skip(1) =~= Seq::<char>::empty());
    assert(text.drop_last() =~= Seq::<char>::empty());
    reveal_with_fuel(number_value, 2);
    assert forall|radix: int| #[trigger] all_digits(text, radix) == (digit_value(
        digit,
        radix,
    ) is Some) by {
        if all_digits(text, radix) {
            assert(digit_value(text[0], radix) is Some);
        }
    }
}

/// A time is written as its three bytes, two digits each, with colons between them.
pub proof fn time_is_written_in_digits(msf: Seq<u8>)
    requires
        msf.len() == 3,
        forall|i: int| 0 <= i < 3 ==> #[trigger] msf[i] / 16 < 10 && msf[i] % 16 < 10,
    ensures
        ({
            let text = msf_text(msf);
            &&& text.len() == 8
            &&& text[0] as int == 48 + msf[0] / 16 && text[1] as int == 48 + msf[0] % 16
            &&& text[2] == ':'
            &&& text[3] as int == 48 + msf[1] / 16 && text[4] as int == 48 + msf[1] % 16
            &&& text[5] == ':'
            &&& text[6] as int == 48 + msf[2] / 16 && text[7] as int == 48 + msf[2] % 16
        }),
{
    assert(msf[0] / 16 < 10 && msf[0] % 16 < 10);
    assert(msf[1] / 16 < 10 && msf[1] % 16 < 10);
    assert(msf[2] / 16 < 10 && msf[2] % 16 < 10);
    assert(byte_text(msf[0]).len() == 2 && byte_text(msf[1]).len() == 2 && byte_text(msf[2]).len()
        == 2);
}

} // verus!
