//! The edits of one file, each guarded by a backup: tags, cover art, and
//! conversion to MP3.

use vstd::prelude::*;

use crate::format::{audio_format, format_of, reported_extension, unsupported, AudioFormat, MetadataError};
use crate::mutation::{backup_location, backup_path, guarded, Mutation, MutationView, Phase};
use crate::path::{
    extension_of, file_name_spec, join, join_spec, last_component, last_component_stem,
    lemma_directory_and_name, lemma_path_parts, lemma_stem_and_extension, lemma_stem_parts, name_start, stem_of,
    with_extension, with_extension_spec,
};
use crate::tools::{
    command_views, convert_command, convert_command_spec, cover_art_command, cover_art_command_spec, decimal,
    decimal_string, tag_commands, tag_field_commands, TagField, ToolCommand,
};

verus! {

/// What a guarded tag edit gives: the error for an unsupported format, or a
/// mutation that backs the file up in `dir` and runs the tag commands.
pub open spec fn guarded_tag_result(
    r: Result<Mutation, MetadataError>,
    f: TagField,
    value: Seq<char>,
    path: Seq<char>,
    dir: Seq<char>,
) -> bool {
    match format_of(path) {
        AudioFormat::Unsupported => r matches Err(MetadataError::UnsupportedFormat(e)) && e@ == reported_extension(path),
        fmt => guarded(r, path, dir, tag_commands(fmt, f, value, path)),
    }
}

/// Sets field `f` of the file at `file_path` to `value`, with the file backed
/// up in `temp_dir` first and restored from there if a command fails.
pub fn guarded_tag_edit(file_path: &str, f: TagField, value: &str, temp_dir: &str) -> (r: Result<Mutation, MetadataError>)
    ensures
        guarded_tag_result(r, f, value@, file_path@, temp_dir@),
{
    match tag_field_commands(file_path, f, value) {
        Err(e) => Err(e),
        Ok(commands) => Mutation::guard(file_path, temp_dir, commands),
    }
}

/// Sets the song title of the file at `file_path`, guarded by a backup in `temp_dir`.
pub fn set_title_with_temp(file_path: &str, title: &str, temp_dir: &str) -> (r: Result<Mutation, MetadataError>)
    ensures
        guarded_tag_result(r, TagField::Title, title@, file_path@, temp_dir@),
{
    guarded_tag_edit(file_path, TagField::Title, title, temp_dir)
}

/// What embedding cover art gives: the error for an unsupported format; or a
/// mutation that backs the audio file up in `dir` and has the transcoder read
/// that backup and write the audio file with the image added; or an I/O error
/// where no backup can be made.
pub open spec fn cover_art_result(r: Result<Mutation, MetadataError>, audio: Seq<char>, cover: Seq<char>, dir: Seq<char>) -> bool {
    if format_of(audio) == AudioFormat::Unsupported {
        r matches Err(MetadataError::UnsupportedFormat(e)) && e@ == reported_extension(audio)
    } else {
        match backup_path(dir, audio) {
            Some(b) => r matches Ok(m) && m@ == (MutationView {
                target: audio,
                backup: b,
                commands: seq![cover_art_command_spec(b, cover, audio)],
                phase: Phase::BackingUp,
            }),
            None => r matches Err(MetadataError::IoError),
        }
    }
}

/// Embeds the image at `cover_path` into the FLAC or MP3 file at `audio_path`
/// as its front cover, the audio copied bit for bit, guarded by a backup in
/// `temp_dir`.
pub fn set_cover_art_with_temp(audio_path: &str, cover_path: &str, temp_dir: &str) -> (r: Result<Mutation, MetadataError>)
    ensures
        cover_art_result(r, audio_path@, cover_path@, temp_dir@),
{
    if let AudioFormat::Unsupported = audio_format(audio_path) {
        return Err(unsupported(audio_path));
    }
    match backup_location(temp_dir, audio_path) {
        None => Err(MetadataError::IoError),
        Some(b) => {
            let c = cover_art_command(b.as_str(), cover_path, audio_path);
            let mut commands: Vec<ToolCommand> = Vec::new();
            commands.push(c);
            let r = Mutation::guard(audio_path, temp_dir, commands);
            assert(command_views(commands@) =~= seq![cover_art_command_spec(b@, cover_path@, audio_path@)]);
            r
        },
    }
}

/// Sets the artist of the file at `file_path`, guarded by a backup in `temp_dir`.
pub fn set_artist(file_path: &str, artist: &str, temp_dir: &str) -> (r: Result<Mutation, MetadataError>)
    ensures
        guarded_tag_result(r, TagField::Artist, artist@, file_path@, temp_dir@),
{
    guarded_tag_edit(file_path, TagField::Artist, artist, temp_dir)
}

/// Sets the album title of the file at `file_path`, guarded by a backup in `temp_dir`.
pub fn set_album_title(file_path: &str, album_title: &str, temp_dir: &str) -> (r: Result<Mutation, MetadataError>)
    ensures
        guarded_tag_result(r, TagField::Album, album_title@, file_path@, temp_dir@),
{
    guarded_tag_edit(file_path, TagField::Album, album_title, temp_dir)
}

/// Sets the track number of the file at `file_path`, written in decimal,
/// guarded by a backup in `temp_dir`.
pub fn set_track_number(file_path: &str, track_number: u32, temp_dir: &str) -> (r: Result<Mutation, MetadataError>)
    ensures
        guarded_tag_result(r, TagField::TrackNumber, decimal(track_number as nat), file_path@, temp_dir@),
{
    let n = decimal_string(track_number);
    guarded_tag_edit(file_path, TagField::TrackNumber, n.as_str(), temp_dir)
}

/// Where the MP3 made from `input` goes: beside it, with the same stem and the
/// extension `mp3`; or, given an output directory, `<dir>/<stem>.mp3`.
pub open spec fn conversion_output(input: Seq<char>, output_dir: Option<Seq<char>>) -> Seq<char> {
    match output_dir {
        None => with_extension_spec(input, "mp3"@),
        Some(d) => join_spec(d, stem_of(last_component(input)) + ".mp3"@),
    }
}

pub open spec fn optional_view(o: Option<&str>) -> Option<Seq<char>> {
    match o {
        Some(s) => Some(s@),
        None => None,
    }
}

/// The path of the MP3 file that converting `input` makes.
pub fn conversion_output_path(input: &str, output_dir: Option<&str>) -> (r: String)
    ensures
        r@ == conversion_output(input@, optional_view(output_dir)),
{
    match output_dir {
        None => with_extension(input, "mp3"),
        Some(d) => {
            let mut name = last_component_stem(input);
            name.append(".mp3");
            join(d, name.as_str())
        },
    }
}

/// Backs up `input` in `temp_dir`, then converts it into an MP3 file at
/// `output_path` at `bitrate` kbps, keeping its metadata.
pub fn convert_to_mp3(input_path: &str, output_path: &str, bitrate: u32, temp_dir: &str) -> (r: Result<Mutation, MetadataError>)
    ensures
        guarded(r, input_path@, temp_dir@, seq![convert_command_spec(input_path@, output_path@, bitrate)]),
{
    let c = convert_command(input_path, output_path, bitrate);
    let mut commands: Vec<ToolCommand> = Vec::new();
    commands.push(c);
    assert(command_views(commands@) =~= seq![convert_command_spec(input_path@, output_path@, bitrate)]);
    Mutation::guard(input_path, temp_dir, commands)
}

/// Converts the FLAC file at `input_path` to MP3, beside it or into
/// `output_dir`. Any file that is not FLAC is refused as unsupported.
pub fn convert_flac_to_mp3(input_path: &str, output_dir: Option<&str>, bitrate: u32, temp_dir: &str) -> (r: Result<Mutation, MetadataError>)
    ensures
        format_of(input_path@) == AudioFormat::Flac ==> guarded(
            r,
            input_path@,
            temp_dir@,
            seq![convert_command_spec(input_path@, conversion_output(input_path@, optional_view(output_dir)), bitrate)],
        ),
        format_of(input_path@) != AudioFormat::Flac ==> (r matches Err(MetadataError::UnsupportedFormat(e)) && e@
            == reported_extension(input_path@)),
{
    match audio_format(input_path) {
        AudioFormat::Flac => {
            let output = conversion_output_path(input_path, output_dir);
            convert_to_mp3(input_path, output.as_str(), bitrate, temp_dir)
        },
        _ => Err(unsupported(input_path)),
    }
}

/// Without an output directory, a conversion writes beside its input: the MP3
/// file lies in the input's directory, and its name has the input's stem and
/// the extension `mp3`.
pub proof fn lemma_conversion_output_is_sibling(input: Seq<char>)
    requires
        file_name_spec(input) is Some,
    ensures
        ({
            let out = conversion_output(input, None);
            &&& out.subrange(0, name_start(out)) == input.subrange(0, name_start(input))
            &&& stem_of(last_component(out)) == stem_of(last_component(input))
            &&& extension_of(last_component(out)) == Some("mp3"@)
        }),
{
    reveal_strlit("mp3");
    let dir = input.subrange(0, name_start(input));
    let n = last_component(input);
    lemma_path_parts(input);
    lemma_stem_parts(n);
    let name = stem_of(n) + seq!['.'] + "mp3"@;
    assert forall|i: int| 0 <= i < name.len() implies name[i] != '/' by {
        if i < stem_of(n).len() {
            assert(name[i] == stem_of(n)[i]);
        }
    }
    assert(conversion_output(input, None) =~= dir + name);
    lemma_directory_and_name(dir, name);
    lemma_stem_and_extension(stem_of(n), "mp3"@);
}

/// With an output directory, a conversion writes `<dir>/<stem>.mp3`, where the
/// stem is the input's.
pub proof fn lemma_conversion_output_in_directory(input: Seq<char>, dir: Seq<char>)
    requires
        file_name_spec(input) is Some,
        dir.len() > 0,
        dir.last() != '/',
    ensures
        conversion_output(input, Some(dir)) == dir + seq!['/'] + stem_of(last_component(input)) + ".mp3"@,
{
    assert(conversion_output(input, Some(dir)) =~= dir + seq!['/'] + stem_of(last_component(input)) + ".mp3"@);
}

} // verus!
