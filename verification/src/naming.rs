//! The names of the files of a ladder.

use vstd::prelude::*;

use crate::text::{
    decimal, law_numbered_names_differ, law_numbered_names_hold_their_parts, number_in, numbered,
    numbered_name,
};

verus! {

/// Names that count from zero between a prefix and a suffix.
pub open spec fn counted_names(prefix: Seq<char>, count: nat, suffix: Seq<char>) -> Seq<Seq<char>> {
    Seq::new(count, |i: int| numbered_name(prefix, i as nat, suffix))
}

/// The texts of a list of strings.
pub open spec fn texts(strings: Seq<String>) -> Seq<Seq<char>> {
    strings.map_values(|s: String| s@)
}

fn count_names(prefix: &str, count: usize, suffix: &str) -> (names: Vec<String>)
    ensures
        texts(names@) == counted_names(prefix@, count as nat, suffix@),
{
    let mut names: Vec<String> = Vec::new();
    let mut i: usize = 0;
    while i < count
        invariant
            i <= count,
            names@.len() == i,
            forall|k: int|
                0 <= k < i ==> (#[trigger] names@[k])@ == numbered_name(prefix@, k as nat, suffix@),
        decreases count - i,
    {
        names.push(numbered(prefix, i, suffix));
        i += 1;
    }
    assert(texts(names@) =~= counted_names(prefix@, count as nat, suffix@));
    names
}

/// The names of the sources and of the outputs of a ladder of `count` rungs.
pub fn paths(count: usize) -> (names: (Vec<String>, Vec<String>))
    ensures
        texts(names.0@) == counted_names("source"@, count as nat, ".mp4"@),
        texts(names.1@) == counted_names("output"@, count as nat, ".mp4"@),
{
    (count_names("source", count, ".mp4"), count_names("output", count, ".mp4"))
}

/// The names of the sources and of the outputs of `count` audio renditions.
pub fn audio_paths(count: usize) -> (names: (Vec<String>, Vec<String>))
    ensures
        texts(names.0@) == counted_names("audio"@, count as nat, ".m4a"@),
        texts(names.1@) == counted_names("signed_audio"@, count as nat, ".m4a"@),
{
    (count_names("audio", count, ".m4a"), count_names("signed_audio", count, ".m4a"))
}

/// The name of output `index` of a ladder that starts with an audio rendition, for a source
/// with the given extension.
pub fn audio_first_path(index: usize, extension: &str) -> (name: String)
    ensures
        name@ == numbered_name("audio_first"@, index as nat, "."@ + extension@),
{
    let mut suffix = String::from_str(".");
    suffix.append(extension);
    numbered("audio_first", index, suffix.as_str())
}

/// No two files of a ladder share a name: not two sources, not two outputs, and no output and
/// source.
pub proof fn law_ladder_names_never_clash(count: nat, i: int, j: int)
    requires
        0 <= i < count,
        0 <= j < count,
    ensures
        ({
            let sources = counted_names("source"@, count, ".mp4"@);
            let outputs = counted_names("output"@, count, ".mp4"@);
            &&& sources[i] == sources[j] <==> i == j
            &&& outputs[i] == outputs[j] <==> i == j
            &&& sources[i] != outputs[j]
        }),
{
    law_numbered_names_differ("source"@, i as nat, j as nat, ".mp4"@);
    law_numbered_names_differ("output"@, i as nat, j as nat, ".mp4"@);
    reveal_strlit("source");
    reveal_strlit("output");
    assert(numbered_name("source"@, i as nat, ".mp4"@)[0] == 's');
    assert(numbered_name("output"@, j as nat, ".mp4"@)[0] == 'o');
}

/// There are as many names as were asked for, and each has its own place for its number, written
/// in decimal between prefix and suffix.
pub proof fn law_names_count_from_zero(prefix: Seq<char>, count: nat, suffix: Seq<char>)
    ensures
        counted_names(prefix, count, suffix).len() == count,
        forall|k: int|
            0 <= k < count ==> {
                let name = #[trigger] counted_names(prefix, count, suffix)[k];
                let number = name.subrange(prefix.len() as int, name.len() - suffix.len());
                &&& number_in(number) == k
                &&& number == decimal(k as nat)
                &&& name == prefix + number + suffix
            },
{
    assert forall|k: int| 0 <= k < count implies {
        let name = #[trigger] counted_names(prefix, count, suffix)[k];
        let number = name.subrange(prefix.len() as int, name.len() - suffix.len());
        &&& number_in(number) == k
        &&& number == decimal(k as nat)
        &&& name == prefix + number + suffix
    } by {
        law_numbered_names_hold_their_parts(prefix, k as nat, suffix);
    }
}

/// Names that were asked for first stay what they are when more are asked for.
pub proof fn law_more_names_keep_the_first(
    prefix: Seq<char>,
    few: nat,
    many: nat,
    suffix: Seq<char>,
)
    requires
        few <= many,
    ensures
        counted_names(prefix, few, suffix) == counted_names(prefix, many, suffix).take(few as int),
{
    assert(counted_names(prefix, few, suffix) =~= counted_names(prefix, many, suffix).take(
        few as int,
    ));
}

/// The texts of strings are those of each, in their order.
pub proof fn law_texts_are_those_of_the_strings(strings: Seq<String>)
    ensures
        texts(strings).len() == strings.len(),
        forall|k: int| 0 <= k < strings.len() ==> #[trigger] texts(strings)[k] == strings[k]@,
{
}

} // verus!
