//! Taking pictures with an outside capture tool: reading its list of
//! devices, and naming what it is to read and write.

use vstd::prelude::*;
use vstd::string::StringExecFns;
use crate::text::{
    chars_of, decimal, find_first, first_match, part_of, push_decimal, run_end, scan_run_end,
    strip, stripped, text_of, CharClass,
};

verus! {

/// How long a capture lasts, in seconds, unless the user says otherwise.
pub const DEFAULT_DURATION_SECS: u64 = 10;

/// Where pictures go unless the user says otherwise.
pub const DEFAULT_OUTPUT_DIR: &'static str = "hudagents-capture/assets";

/// The line of `text` that starts at `from`, and where the next line starts.
/// A line ends before a line feed, or at the end of the text; a carriage
/// return right before the line feed is no part of the line.
pub open spec fn line_at(text: Seq<char>, from: int) -> (Seq<char>, int) {
    let end = run_end(text, CharClass::NonLineFeed, from);
    if end >= text.len() {
        (text.subrange(from, text.len() as int), text.len() as int)
    } else if from < end && text[end - 1] == '\r' {
        (text.subrange(from, end - 1), end + 1)
    } else {
        (text.subrange(from, end), end + 1)
    }
}

/// The name of the device that `line` lists: what follows the first
/// closing square bracket, without the white space around it.
pub open spec fn device_on(line: Seq<char>) -> Option<Seq<char>> {
    match first_match(line, "]"@) {
        Some(at) => Some(stripped(line.skip(at + 1), CharClass::Space)),
        None => None,
    }
}

/// The video devices listed in `text` from position `from` on, where
/// `in_video` says whether the heading of the video devices was seen.
pub open spec fn devices_from(text: Seq<char>, from: int, in_video: bool) -> Seq<Seq<char>>
    decreases text.len() - from,
{
    if from < 0 || from >= text.len() {
        seq![]
    } else {
        let (line, next) = line_at(text, from);
        if next <= from {
            seq![]
        } else if first_match(line, "AVFoundation video devices:"@) is Some {
            devices_from(text, next, true)
        } else if first_match(line, "AVFoundation audio devices:"@) is Some {
            seq![]
        } else if in_video && device_on(line) is Some {
            seq![device_on(line)->Some_0] + devices_from(text, next, in_video)
        } else {
            devices_from(text, next, in_video)
        }
    }
}

/// The video devices that the capture tool lists: the lines between the
/// heading of the video devices and that of the audio devices, each read
/// as `device_on` says; a line without a closing bracket lists nothing.
pub open spec fn video_devices(listing: Seq<char>) -> Seq<Seq<char>> {
    devices_from(listing, 0, false)
}

proof fn lemma_line_moves_on(text: Seq<char>, from: int)
    requires
        0 <= from < text.len(),
    ensures
        from < line_at(text, from).1 <= text.len(),
        from <= run_end(text, CharClass::NonLineFeed, from) <= text.len(),
{
    crate::text::lemma_run_end_bounds(text, CharClass::NonLineFeed, from);
}

/// Reads the names of the video devices from what the capture tool printed.
pub fn parse_video_devices(listing: &str) -> (names: Vec<String>)
    ensures
        names@.len() == video_devices(listing@).len(),
        forall|k: int| 0 <= k < names@.len() ==> (#[trigger] names@[k])@ == video_devices(listing@)[k],
{
    let text = chars_of(listing);
    let video_heading = chars_of("AVFoundation video devices:");
    let audio_heading = chars_of("AVFoundation audio devices:");
    let bracket = chars_of("]");
    proof {
        reveal_strlit("]");
    }
    let mut names: Vec<String> = Vec::new();
    let ghost mut found: Seq<Seq<char>> = seq![];
    let mut in_video_section = false;
    let mut from: usize = 0;
    assert(found + devices_from(text@, 0, false) =~= video_devices(listing@));
    while from < text.len()
        invariant
            from <= text.len(),
            text@ == listing@,
            video_heading@ == "AVFoundation video devices:"@,
            audio_heading@ == "AVFoundation audio devices:"@,
            bracket@ == "]"@,
            bracket@.len() == 1,
            names@.len() == found.len(),
            forall|k: int| 0 <= k < names@.len() ==> (#[trigger] names@[k])@ == found[k],
            video_devices(listing@) == found + devices_from(
                text@,
                from as int,
                in_video_section,
            ),
        ensures
            video_devices(listing@) == found,
            names@.len() == found.len(),
            forall|k: int| 0 <= k < names@.len() ==> (#[trigger] names@[k])@ == found[k],
        decreases text.len() - from,
    {
        proof {
            lemma_line_moves_on(text@, from as int);
        }
        let end = scan_run_end(&text, CharClass::NonLineFeed, from);
        let (line, next) = if end >= text.len() {
            (part_of(&text, from, text.len()), text.len())
        } else if from < end && text[end - 1] == '\r' {
            (part_of(&text, from, end - 1), end + 1)
        } else {
            (part_of(&text, from, end), end + 1)
        };
        assert((line@, next as int) == line_at(text@, from as int));
        if find_first(&line, &video_heading).is_some() {
            in_video_section = true;
            from = next;
            continue ;
        }
        if find_first(&line, &audio_heading).is_some() {
            assert(found + Seq::<Seq<char>>::empty() =~= found);
            break ;
        }
        if in_video_section {
            match find_first(&line, &bracket) {
                Some(at) => {
                    let rest = part_of(&line, at + 1, line.len());
                    let name = strip(&rest, CharClass::Space);
                    proof {
                        assert(rest@ =~= line@.skip(at + 1));
                        assert(name@ == device_on(line@)->Some_0);
                        let ahead = devices_from(text@, next as int, in_video_section);
                        assert(found + (seq![name@] + ahead) =~= found.push(name@) + ahead);
                        found = found.push(name@);
                    }
                    names.push(text_of(&name));
                },
                None => {},
            }
        }
        from = next;
    }
    proof {
        assert(found + Seq::<Seq<char>>::empty() =~= found);
    }
    names
}

/// What the capture tool is told to read: the video device with the index
/// `device_index`, and no audio device.
pub fn capture_input(device_index: usize) -> (input: String)
    ensures
        input@ == decimal(device_index as nat) + ":none"@,
{
    let mut input = String::new();
    push_decimal(&mut input, device_index as u64);
    input.append(":none");
    input
}

/// The name of the file that holds the picture of `session`.
pub fn capture_file_name(session: &str) -> (name: String)
    ensures
        name@ == session@ + ".jpg"@,
{
    let mut name = String::from_str(session);
    name.append(".jpg");
    name
}

} // verus!
