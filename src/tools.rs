//! The command lines of the external programs: a FLAC tag editor (`metaflac`),
//! an MP3 tag editor (`id3v2`) and a transcoder (`ffmpeg`).

use vstd::prelude::*;

use crate::path::string_views;
use crate::format::{format_of, reported_extension, unsupported, AudioFormat, MetadataError, audio_format};

verus! {

/// One run of an external program: its name and its arguments.
#[derive(Debug, PartialEq, Eq)]
pub struct ToolCommand {
    pub program: String,
    pub args: Vec<String>,
}

/// A command as plain text: the program and its arguments.
pub type CommandView = (Seq<char>, Seq<Seq<char>>);

impl View for ToolCommand {
    type V = CommandView;

    open spec fn view(&self) -> CommandView {
        (self.program@, string_views(self.args@))
    }
}

pub open spec fn command_views(v: Seq<ToolCommand>) -> Seq<CommandView> {
    v.map_values(|c: ToolCommand| c@)
}

/// The tags that can be set one at a time.
#[derive(Clone, Copy, Debug, PartialEq, Eq, Structural)]
pub enum TagField {
    Artist,
    Album,
    Title,
    TrackNumber,
}

/// The name of the field among FLAC's tags.
pub open spec fn flac_tag(f: TagField) -> Seq<char> {
    match f {
        TagField::Artist => "ARTIST"@,
        TagField::Album => "ALBUM"@,
        TagField::Title => "TITLE"@,
        TagField::TrackNumber => "TRACKNUMBER"@,
    }
}

/// The option of the MP3 tag editor that sets the field.
pub open spec fn mp3_flag(f: TagField) -> Seq<char> {
    match f {
        TagField::Artist => "--artist"@,
        TagField::Album => "--album"@,
        TagField::Title => "--song"@,
        TagField::TrackNumber => "--track"@,
    }
}

/// The commands that set a field of a file of format `fmt` to `value`. FLAC
/// takes two: the tag editor would otherwise add a second tag beside the old
/// one, so the old one is removed first, then the new one set.
pub open spec fn tag_commands(fmt: AudioFormat, f: TagField, value: Seq<char>, path: Seq<char>) -> Seq<CommandView> {
    match fmt {
        AudioFormat::Flac => seq![
            ("metaflac"@, seq!["--remove-tag"@, flac_tag(f), path]),
            ("metaflac"@, seq!["--set-tag"@, flac_tag(f) + "="@ + value, path]),
        ],
        AudioFormat::Mp3 => seq![("id3v2"@, seq![mp3_flag(f), value, path])],
        AudioFormat::Unsupported => seq![],
    }
}

/// What `set_*` gives for a path and a value: the commands, or the error for
/// an unsupported format.
pub open spec fn tag_result(r: Result<Vec<ToolCommand>, MetadataError>, f: TagField, value: Seq<char>, path: Seq<char>) -> bool {
    match format_of(path) {
        AudioFormat::Unsupported => r matches Err(MetadataError::UnsupportedFormat(e)) && e@ == reported_extension(path),
        fmt => r matches Ok(v) && command_views(v@) == tag_commands(fmt, f, value, path),
    }
}

/// A decimal digit.
pub open spec fn digit_char(d: int) -> char {
    seq!['0', '1', '2', '3', '4', '5', '6', '7', '8', '9'][d]
}

/// The decimal numeral of `n`, without leading zeros.
pub open spec fn decimal(n: nat) -> Seq<char>
    decreases n,
{
    if n < 10 {
        seq![digit_char(n as int)]
    } else {
        decimal(n / 10) + seq![digit_char((n % 10) as int)]
    }
}

/// The decimal numeral of `n`.
pub fn decimal_string(n: u32) -> (r: String)
    ensures
        r@ == decimal(n as nat),
    decreases n,
{
    let digits = "0123456789";
    proof {
        reveal_strlit("0123456789");
    }
    let d = (n % 10) as usize;
    let last = digits.substring_char(d, d + 1);
    assert(last@ =~= seq![digit_char(d as int)]);
    if n < 10 {
        String::from_str(last)
    } else {
        let mut r = decimal_string(n / 10);
        r.append(last);
        r
    }
}

fn push_arg(args: &mut Vec<String>, a: &str)
    ensures
        string_views(final(args)@) == string_views(old(args)@).push(a@),
{
    args.push(String::from_str(a));
    assert(string_views(final(args)@) =~= string_views(old(args)@).push(a@));
}

fn push_owned(args: &mut Vec<String>, a: String)
    ensures
        string_views(final(args)@) == string_views(old(args)@).push(a@),
{
    args.push(a);
    assert(string_views(final(args)@) =~= string_views(old(args)@).push(a@));
}

fn push_command(v: &mut Vec<ToolCommand>, c: ToolCommand)
    ensures
        command_views(final(v)@) == command_views(old(v)@).push(c@),
{
    let ghost cv = c@;
    v.push(c);
    assert(command_views(final(v)@) =~= command_views(old(v)@).push(cv));
}

fn flac_tag_name(f: TagField) -> (r: &'static str)
    ensures
        r@ == flac_tag(f),
{
    match f {
        TagField::Artist => "ARTIST",
        TagField::Album => "ALBUM",
        TagField::Title => "TITLE",
        TagField::TrackNumber => "TRACKNUMBER",
    }
}

fn mp3_option(f: TagField) -> (r: &'static str)
    ensures
        r@ == mp3_flag(f),
{
    match f {
        TagField::Artist => "--artist",
        TagField::Album => "--album",
        TagField::Title => "--song",
        TagField::TrackNumber => "--track",
    }
}

/// The commands that set field `f` of the file at `path` to `value`, chosen by
/// the file's format; an unsupported format is an error, and no command is made.
pub fn tag_field_commands(path: &str, f: TagField, value: &str) -> (r: Result<Vec<ToolCommand>, MetadataError>)
    ensures
        tag_result(r, f, value@, path@),
{
    match audio_format(path) {
        AudioFormat::Flac => {
            let tag = flac_tag_name(f);
            let mut remove: Vec<String> = Vec::new();
            assert(string_views(remove@) =~= Seq::empty());
            push_arg(&mut remove, "--remove-tag");
            push_arg(&mut remove, tag);
            push_arg(&mut remove, path);
            let mut assignment = String::from_str(tag);
            assignment.append("=");
            assignment.append(value);
            let mut set: Vec<String> = Vec::new();
            assert(string_views(set@) =~= Seq::empty());
            push_arg(&mut set, "--set-tag");
            push_owned(&mut set, assignment);
            push_arg(&mut set, path);
            assert(string_views(remove@) =~= seq!["--remove-tag"@, flac_tag(f), path@]);
            assert(string_views(set@) =~= seq!["--set-tag"@, flac_tag(f) + "="@ + value@, path@]);
            let mut v: Vec<ToolCommand> = Vec::new();
            assert(command_views(v@) =~= Seq::empty());
            push_command(&mut v, ToolCommand { program: String::from_str("metaflac"), args: remove });
            push_command(&mut v, ToolCommand { program: String::from_str("metaflac"), args: set });
            assert(command_views(v@) =~= tag_commands(AudioFormat::Flac, f, value@, path@));
            Ok(v)
        },
        AudioFormat::Mp3 => {
            let mut args: Vec<String> = Vec::new();
            assert(string_views(args@) =~= Seq::empty());
            push_arg(&mut args, mp3_option(f));
            push_arg(&mut args, value);
            push_arg(&mut args, path);
            assert(string_views(args@) =~= seq![mp3_flag(f), value@, path@]);
            let mut v: Vec<ToolCommand> = Vec::new();
            assert(command_views(v@) =~= Seq::empty());
            push_command(&mut v, ToolCommand { program: String::from_str("id3v2"), args });
            assert(command_views(v@) =~= tag_commands(AudioFormat::Mp3, f, value@, path@));
            Ok(v)
        },
        AudioFormat::Unsupported => Err(unsupported(path)),
    }
}

/// The transcoder run that embeds the image at `cover` in the audio read from
/// `source`, writing `audio`: the audio stream is copied as it is, not
/// re-encoded, and the image becomes an attached picture whose title and
/// comment both read "Cover (front)".
pub open spec fn cover_art_command_spec(source: Seq<char>, cover: Seq<char>, audio: Seq<char>) -> CommandView {
    ("ffmpeg"@, seq![
        "-y"@, "-loglevel"@, "error"@,
        "-i"@, source,
        "-i"@, cover,
        "-map"@, "0:a"@,
        "-map"@, "1:v"@,
        "-c:a"@, "copy"@,
        "-c:v"@, "copy"@,
        "-id3v2_version"@, "3"@,
        "-metadata:s:v"@, "title=Cover (front)"@,
        "-metadata:s:v"@, "comment=Cover (front)"@,
        audio,
    ])
}

/// The transcoder run that encodes `input` as MP3 at `bitrate` kbps into
/// `output`, carrying over the container's metadata.
pub open spec fn convert_command_spec(input: Seq<char>, output: Seq<char>, bitrate: u32) -> CommandView {
    ("ffmpeg"@, seq![
        "-y"@, "-loglevel"@, "error"@,
        "-i"@, input,
        "-codec:a"@, "libmp3lame"@,
        "-b:a"@, decimal(bitrate as nat) + "k"@,
        "-map_metadata"@, "0"@,
        output,
    ])
}

/// The command that embeds the image at `cover` into `audio`, reading the audio
/// from `source` (a copy of `audio` made beforehand).
pub fn cover_art_command(source: &str, cover: &str, audio: &str) -> (r: ToolCommand)
    ensures
        r@ == cover_art_command_spec(source@, cover@, audio@),
{
    let mut a: Vec<String> = Vec::new();
    assert(string_views(a@) =~= Seq::empty());
    push_arg(&mut a, "-y");
    push_arg(&mut a, "-loglevel");
    push_arg(&mut a, "error");
    push_arg(&mut a, "-i");
    push_arg(&mut a, source);
    push_arg(&mut a, "-i");
    push_arg(&mut a, cover);
    push_arg(&mut a, "-map");
    push_arg(&mut a, "0:a");
    push_arg(&mut a, "-map");
    push_arg(&mut a, "1:v");
    push_arg(&mut a, "-c:a");
    push_arg(&mut a, "copy");
    push_arg(&mut a, "-c:v");
    push_arg(&mut a, "copy");
    push_arg(&mut a, "-id3v2_version");
    push_arg(&mut a, "3");
    push_arg(&mut a, "-metadata:s:v");
    push_arg(&mut a, "title=Cover (front)");
    push_arg(&mut a, "-metadata:s:v");
    push_arg(&mut a, "comment=Cover (front)");
    push_arg(&mut a, audio);
    let r = ToolCommand { program: String::from_str("ffmpeg"), args: a };
    assert(r@.1 =~= cover_art_command_spec(source@, cover@, audio@).1);
    r
}

/// The command that converts `input` to an MP3 file at `output`.
pub fn convert_command(input: &str, output: &str, bitrate: u32) -> (r: ToolCommand)
    ensures
        r@ == convert_command_spec(input@, output@, bitrate),
{
    let mut rate = decimal_string(bitrate);
    rate.append("k");
    let mut a: Vec<String> = Vec::new();
    assert(string_views(a@) =~= Seq::empty());
    push_arg(&mut a, "-y");
    push_arg(&mut a, "-loglevel");
    push_arg(&mut a, "error");
    push_arg(&mut a, "-i");
    push_arg(&mut a, input);
    push_arg(&mut a, "-codec:a");
    push_arg(&mut a, "libmp3lame");
    push_arg(&mut a, "-b:a");
    push_owned(&mut a, rate);
    push_arg(&mut a, "-map_metadata");
    push_arg(&mut a, "0");
    push_arg(&mut a, output);
    let r = ToolCommand { program: String::from_str("ffmpeg"), args: a };
    assert(r@.1 =~= convert_command_spec(input@, output@, bitrate).1);
    r
}

/// An equal command, built afresh.
pub fn copy_command(c: &ToolCommand) -> (r: ToolCommand)
    ensures
        r@ == c@,
{
    let mut a: Vec<String> = Vec::new();
    let n = c.args.len();
    let mut i: usize = 0;
    while i < n
        invariant
            n == c.args@.len(),
            i <= n,
            string_views(a@) =~= string_views(c.args@).subrange(0, i as int),
        decreases n - i,
    {
        push_arg(&mut a, c.args[i].as_str());
        i = i + 1;
    }
    assert(string_views(c.args@).subrange(0, n as int) =~= string_views(c.args@));
    ToolCommand { program: String::from_str(c.program.as_str()), args: a }
}

} // verus!
