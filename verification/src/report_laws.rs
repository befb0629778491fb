//! How reports put texts together, and where output goes.
use vstd::prelude::*;

use crate::error::Failure;
use crate::report::{joined, joined_from, last_named, output_path, stem_of};
use crate::text::{last_index_of, last_index_of_is_last, last_index_of_unique, split_at};
use crate::text_laws::text_is_cut_at_separators;

verus! {

/// Texts that are joined have the separator between them: one more text follows a separator
/// unless it is the first, and no text joins up to nothing.
pub proof fn texts_are_joined(texts: Seq<Seq<char>>, text: Seq<char>, separator: Seq<char>)
    ensures
        joined(Seq::empty(), separator) == Seq::<char>::empty(),
        joined(seq![text], separator) == text,
        texts.len() > 0 ==> joined(texts.push(text), separator) == joined(texts, separator)
            + separator + text,
{
    let none = Seq::<char>::empty();
    assert(none + text =~= text);
    assert(joined_from(seq![text], separator, 1, none + text) == text);
    if texts.len() > 0 {
        assert(texts.push(text)[0] == texts[0]);
        text_is_joined_last(texts, text, separator, 1, none + texts[0]);
    }
}

proof fn text_is_joined_last(
    texts: Seq<Seq<char>>,
    text: Seq<char>,
    separator: Seq<char>,
    index: int,
    start: Seq<char>,
)
    requires
        1 <= index <= texts.len(),
    ensures
        joined_from(texts.push(text), separator, index, start) == joined_from(
            texts,
            separator,
            index,
            start,
        ) + separator + text,
    decreases texts.len() - index,
{
    let all = texts.push(text);
    if index < texts.len() {
        assert(all[index] == texts[index]);
        text_is_joined_last(texts, text, separator, index + 1, start + separator + texts[index]);
    } else {
        assert(all[index] == text);
        assert(joined_from(all, separator, index + 1, start + separator + text) == start + separator
            + text);
    }
}

/// Output that is given a place goes there.
pub proof fn given_output_is_kept(
    path: Seq<char>,
    input: Seq<char>,
    extension: Seq<char>,
    kind: Seq<char>,
)
    ensures
        output_path(Some(path), input, extension, kind) == Ok::<Seq<char>, Failure>(path),
{
}

/// Output without a place is named as its input is, whatever directory that lies in, but for
/// what stands behind the last period of its name; a period at the start of a name is part of
/// it. Slashes at the end of the input change nothing.
pub proof fn output_is_named_as_input(
    directory: Seq<char>,
    stem: Seq<char>,
    old_extension: Seq<char>,
    extension: Seq<char>,
    kind: Seq<char>,
)
    requires
        stem.len() > 0,
        extension.len() > 0,
        forall|i: int| 0 <= i < stem.len() ==> #[trigger] stem[i] != '/',
        forall|i: int|
            0 <= i < old_extension.len() ==> #[trigger] old_extension[i] != '/' && old_extension[i]
                != '.',
        stem != seq!['.'],
    ensures
        output_path(
            None,
            directory + seq!['/'] + (stem + seq!['.'] + old_extension),
            extension,
            kind,
        ) == Ok::<Seq<char>, Failure>(stem + seq!['.'] + extension),
        output_path(None, stem + seq!['.'] + old_extension, extension, kind) == Ok::<
            Seq<char>,
            Failure,
        >(stem + seq!['.'] + extension),
{
    let name = stem + seq!['.'] + old_extension;
    assert forall|i: int| 0 <= i < name.len() implies #[trigger] name[i] != '/' by {
        if i < stem.len() {
            assert(name[i] == stem[i]);
        } else if i > stem.len() {
            assert(name[i] == old_extension[i - stem.len() - 1]);
        }
    }
    name_is_cut(stem, old_extension);
    assert(name.len() >= 2);
    assert(name != seq!['.'] && name != seq!['.', '.']) by {
        if name == seq!['.', '.'] {
            assert(stem =~= seq!['.']);
        }
    }
    text_is_cut_at_separators(directory, '/', name);
    let parts = split_at(directory + seq!['/'] + name, '/');
    assert(parts[parts.len() - 1] == name);
    assert(split_at(name, '/') == seq![name]);
    assert(last_named(seq![name], 1) == name);
}

/// A name without a period, or with one at its start alone, is its own stem.
pub proof fn name_without_extension_is_kept(name: Seq<char>, extension: Seq<char>, kind: Seq<char>)
    requires
        name.len() > 0,
        extension.len() > 0,
        forall|i: int| 0 <= i < name.len() ==> #[trigger] name[i] != '/',
        forall|i: int| 1 <= i < name.len() ==> #[trigger] name[i] != '.',
        name != seq!['.'],
    ensures
        output_path(None, name, extension, kind) == Ok::<Seq<char>, Failure>(
            name + seq!['.'] + extension,
        ),
{
    last_index_of_is_last(name, '.');
    text_is_cut_at_separators(Seq::empty(), '/', name);
    assert(split_at(name, '/') == seq![name]);
    assert(last_named(seq![name], 1) == name);
    if name == seq!['.', '.'] {
        assert(name[1] == '.');
    }
    if last_index_of(name, '.') >= 0 {
        assert(last_index_of(name, '.') == 0);
    }
}

proof fn name_is_cut(stem: Seq<char>, extension: Seq<char>)
    requires
        stem.len() > 0,
        forall|i: int| 0 <= i < extension.len() ==> #[trigger] extension[i] != '.',
    ensures
        stem_of(stem + seq!['.'] + extension) == stem,
{
    let name = stem + seq!['.'] + extension;
    let at = stem.len() as int;
    assert forall|i: int| at < i < name.len() implies name[i] != '.' by {
        assert(name[i] == extension[i - at - 1]);
    }
    last_index_of_unique(name, '.', at);
    assert(name.subrange(0, at) =~= stem);
}

/// An input that names nothing, or a directory above, gives output no name.
pub proof fn nameless_input_is_refused(extension: Seq<char>, kind: Seq<char>)
    ensures
        output_path(None, Seq::empty(), extension, kind) is Err,
        output_path(None, seq!['.'], extension, kind) is Err,
        output_path(None, seq!['.', '.'], extension, kind) is Err,
        output_path(None, seq!['/'], extension, kind) is Err,
{
    let none = Seq::<char>::empty();
    text_is_cut_at_separators(none, '/', none);
    assert(none + seq!['/'] + none =~= seq!['/']);
    text_is_cut_at_separators(none, '/', seq!['.']);
    text_is_cut_at_separators(none, '/', seq!['.', '.']);
    reveal_with_fuel(last_named, 3);
}

} // verus!
