//! What a decoder says of the files of a ladder.

use vstd::prelude::*;

use crate::bytes::same_bytes;
use crate::text::{ends_with, has_suffix, law_text_is_found_where_it_stands, same_text};

verus! {

/// The output of a run of a decoder.
pub struct Decoding {
    pub success: bool,
    pub stdout: Vec<u8>,
    pub stderr: Vec<u8>,
}

/// Whether a line starts at `at` that lists a frame of the first stream: one that starts with a
/// zero and a comma.
pub open spec fn frame_line_at(stdout: Seq<u8>, at: int) -> bool {
    &&& 0 <= at
    &&& at + 1 < stdout.len()
    &&& at == 0 || stdout[at - 1] == 0x0a
    &&& stdout[at] == 0x30
    &&& stdout[at + 1] == 0x2c
}

/// Whether a run decoded a file: without an error or a warning, and with a frame of the first
/// stream.
pub open spec fn is_decoded(run: Decoding) -> bool {
    &&& run.success
    &&& run.stderr@.len() == 0
    &&& exists|at: int| frame_line_at(run.stdout@, at)
}

/// Whether the output lists a frame of the first stream.
pub fn lists_frame(stdout: &[u8]) -> (found: bool)
    ensures
        found == exists|at: int| frame_line_at(stdout@, at),
{
    let mut at: usize = 0;
    while at < stdout.len()
        invariant
            at <= stdout@.len(),
            forall|k: int| 0 <= k < at ==> !frame_line_at(stdout@, k),
        decreases stdout@.len() - at,
    {
        if (at == 0 || stdout[at - 1] == 0x0a) && stdout[at] == 0x30 && at < stdout.len() - 1
            && stdout[at + 1] == 0x2c {
            assert(frame_line_at(stdout@, at as int));
            return true;
        }
        assert(!frame_line_at(stdout@, at as int));
        at += 1;
    }
    false
}

/// Whether a source and its signed output decode, and to the same frames.
pub fn check_decoding(source: &Decoding, output: &Decoding) -> (same: bool)
    ensures
        same == (is_decoded(*source) && is_decoded(*output) && source.stdout@ == output.stdout@),
{
    source.success && output.success && source.stderr.len() == 0 && output.stderr.len() == 0
        && lists_frame(source.stdout.as_slice()) && lists_frame(output.stdout.as_slice())
        && same_bytes(source.stdout.as_slice(), output.stdout.as_slice())
}

/// The format that goes with a file name: by its ending, that of video or of audio.
pub open spec fn format_of(name: Seq<char>) -> Option<Seq<char>> {
    if ends_with(name, ".mp4"@) {
        Some("video/mp4"@)
    } else if ends_with(name, ".m4a"@) {
        Some("audio/mp4"@)
    } else {
        None
    }
}

/// The format that a ladder's manifest must state, given the name of its first source; none is
/// known for a name with another ending.
pub fn expected_format(first_source: &str) -> (format: Option<&'static str>)
    ensures
        match format {
            Some(f) => format_of(first_source@) == Some(f@),
            None => format_of(first_source@) is None,
        },
{
    if has_suffix(first_source, ".mp4") {
        Some("video/mp4")
    } else if has_suffix(first_source, ".m4a") {
        Some("audio/mp4")
    } else {
        None
    }
}

/// Whether a ladder's manifest states the format of the ladder's first source.
pub fn check_format(first_source: &str, format: &str) -> (holds: bool)
    ensures
        holds == (format_of(first_source@) == Some(format@)),
{
    match expected_format(first_source) {
        Some(expected) => same_text(expected, format),
        None => false,
    }
}

/// The format follows the ending alone: whatever the name before it, `.mp4` is video and `.m4a`
/// is audio.
pub proof fn law_format_follows_the_ending(stem: Seq<char>)
    ensures
        format_of(stem + ".mp4"@) == Some("video/mp4"@),
        format_of(stem + ".m4a"@) == Some("audio/mp4"@),
        "video/mp4"@ != "audio/mp4"@,
{
    reveal_strlit(".mp4");
    reveal_strlit(".m4a");
    reveal_strlit("video/mp4");
    reveal_strlit("audio/mp4");
    let video = stem + ".mp4"@;
    let audio = stem + ".m4a"@;
    assert(video.subrange(video.len() - 4, video.len() as int) =~= ".mp4"@);
    assert(audio.subrange(audio.len() - 4, audio.len() as int) =~= ".m4a"@);
    assert(".mp4"@[2] != ".m4a"@[2]);
    assert("video/mp4"@[0] != "audio/mp4"@[0]);
}

/// An output lists a frame of the first stream exactly where some line of it starts with `0,`:
/// any output that starts so does, and any in which these two characters follow a line break;
/// and an output that lists one is made in one of these ways.
pub proof fn law_frames_are_lines_of_the_first_stream(before: Seq<u8>, behind: Seq<u8>, at: int)
    ensures
        frame_line_at(seq![0x30u8, 0x2c] + behind, 0),
        frame_line_at(
            before + seq![0x0au8, 0x30, 0x2c] + behind,
            before.len() as int + 1,
        ),
        frame_line_at(behind, at) ==> {
            ||| at == 0 && behind == seq![0x30u8, 0x2c] + behind.skip(2)
            ||| at > 0 && behind == behind.take(at - 1) + seq![0x0au8, 0x30, 0x2c] + behind.skip(
                at + 2,
            )
        },
{
    if frame_line_at(behind, at) {
        if at == 0 {
            assert(behind =~= seq![0x30u8, 0x2c] + behind.skip(2));
        } else {
            assert(behind =~= behind.take(at - 1) + seq![0x0au8, 0x30, 0x2c] + behind.skip(at + 2));
        }
    }
}

/// A run decoded a file exactly where it succeeded, said nothing on the side and listed a frame.
pub proof fn law_decoding_is_silent_success(run: Decoding)
    ensures
        is_decoded(run) <==> run.success && run.stderr@.len() == 0 && exists|at: int|
            frame_line_at(run.stdout@, at),
{
}

/// A name has a format exactly where it ends in `.mp4` or `.m4a`: that of video for the one, that
/// of audio for the other, and no other name has any.
pub proof fn law_no_other_ending_has_a_format(name: Seq<char>)
    ensures
        format_of(name) == Some("video/mp4"@) <==> exists|stem: Seq<char>|
            name == #[trigger] (stem + ".mp4"@),
        format_of(name) == Some("audio/mp4"@) <==> exists|stem: Seq<char>|
            name == #[trigger] (stem + ".m4a"@),
        format_of(name) is None <==> !(exists|stem: Seq<char>| name == #[trigger] (stem + ".mp4"@))
            && !(exists|stem: Seq<char>| name == #[trigger] (stem + ".m4a"@)),
{
    law_format_follows_the_ending(Seq::empty());
    law_text_is_found_where_it_stands(name, ".mp4"@);
    law_text_is_found_where_it_stands(name, ".m4a"@);
    if exists|stem: Seq<char>| name == #[trigger] (stem + ".m4a"@) {
        let stem = choose|stem: Seq<char>| name == #[trigger] (stem + ".m4a"@);
        law_format_follows_the_ending(stem);
    }
}

} // verus!
