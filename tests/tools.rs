use audio_metadata::{
    convert_command, cover_art_command, decimal_string, set_album_title, set_artist, set_track_number,
    tag_field_commands, MetadataError, Mutation, Step, TagField, ToolCommand,
};

fn cmd(program: &str, args: &[&str]) -> ToolCommand {
    ToolCommand { program: program.to_string(), args: args.iter().map(|a| a.to_string()).collect() }
}

/// The commands that a mutation runs when every step succeeds.
fn runs(mut m: Mutation) -> Vec<ToolCommand> {
    let mut out = Vec::new();
    loop {
        match m.next_step() {
            Step::Run(c) => out.push(c),
            Step::Copy { .. } => {}
            Step::Done(_) => return out,
        }
        m.advance(true);
    }
}

#[test]
fn flac_artist_is_removed_then_set() {
    assert_eq!(
        runs(set_artist("a/song.flac", "Queen", "/tmp/b").unwrap()),
        vec![
            cmd("metaflac", &["--remove-tag", "ARTIST", "a/song.flac"]),
            cmd("metaflac", &["--set-tag", "ARTIST=Queen", "a/song.flac"]),
        ]
    );
}

#[test]
fn mp3_artist_in_any_case_of_extension() {
    assert_eq!(
        runs(set_artist("song.MP3", "Queen", "/tmp/b").unwrap()),
        vec![cmd("id3v2", &["--artist", "Queen", "song.MP3"])]
    );
}

#[test]
fn album_and_title_commands() {
    assert_eq!(
        runs(set_album_title("x.FLAC", "Album", "/tmp/b").unwrap()),
        vec![
            cmd("metaflac", &["--remove-tag", "ALBUM", "x.FLAC"]),
            cmd("metaflac", &["--set-tag", "ALBUM=Album", "x.FLAC"]),
        ]
    );
    assert_eq!(
        runs(set_album_title("x.mp3", "Album", "/tmp/b").unwrap()),
        vec![cmd("id3v2", &["--album", "Album", "x.mp3"])]
    );
    assert_eq!(tag_field_commands("x.mp3", TagField::Title, "Song"), Ok(vec![cmd("id3v2", &["--song", "Song", "x.mp3"])]));
    assert_eq!(
        tag_field_commands("x.flac", TagField::Title, "Song"),
        Ok(vec![
            cmd("metaflac", &["--remove-tag", "TITLE", "x.flac"]),
            cmd("metaflac", &["--set-tag", "TITLE=Song", "x.flac"]),
        ])
    );
}

#[test]
fn track_numbers_are_written_in_decimal() {
    assert_eq!(
        runs(set_track_number("x.flac", 7, "/tmp/b").unwrap()),
        vec![
            cmd("metaflac", &["--remove-tag", "TRACKNUMBER", "x.flac"]),
            cmd("metaflac", &["--set-tag", "TRACKNUMBER=7", "x.flac"]),
        ]
    );
    assert_eq!(runs(set_track_number("x.mp3", 12, "/tmp/b").unwrap()), vec![cmd("id3v2", &["--track", "12", "x.mp3"])]);
}

#[test]
fn tag_edits_back_up_first() {
    let m = set_artist("d/x.mp3", "A", "/tmp/b").unwrap();
    assert_eq!(m.backup(), "/tmp/b/x.mp3");
    assert_eq!(m.next_step(), Step::Copy { from: "d/x.mp3".to_string(), to: "/tmp/b/x.mp3".to_string() });
}

#[test]
fn decimal_numerals() {
    assert_eq!(decimal_string(0), "0");
    assert_eq!(decimal_string(9), "9");
    assert_eq!(decimal_string(10), "10");
    assert_eq!(decimal_string(320), "320");
    assert_eq!(decimal_string(u32::MAX), "4294967295");
}

#[test]
fn unsupported_extensions_are_refused() {
    assert_eq!(set_artist("x.wav", "A", "/tmp/b").err(), Some(MetadataError::UnsupportedFormat("wav".to_string())));
    assert_eq!(set_album_title("noext", "A", "/tmp/b").err(), Some(MetadataError::UnsupportedFormat(String::new())));
    assert_eq!(
        set_track_number("x.flac.bak", 1, "/tmp/b").err(),
        Some(MetadataError::UnsupportedFormat("bak".to_string()))
    );
    assert_eq!(tag_field_commands(".mp3", TagField::Title, "A"), Err(MetadataError::UnsupportedFormat(String::new())));
}

#[test]
fn cover_art_copies_the_audio_and_tags_the_image() {
    let c = cover_art_command("/tmp/b/s.mp3", "cover.jpg", "d/s.mp3");
    assert_eq!(
        c,
        cmd(
            "ffmpeg",
            &[
                "-y", "-loglevel", "error", "-i", "/tmp/b/s.mp3", "-i", "cover.jpg", "-map", "0:a", "-map",
                "1:v", "-c:a", "copy", "-c:v", "copy", "-id3v2_version", "3", "-metadata:s:v",
                "title=Cover (front)", "-metadata:s:v", "comment=Cover (front)", "d/s.mp3",
            ]
        )
    );
}

#[test]
fn conversion_command_line() {
    assert_eq!(
        convert_command("in.flac", "out.mp3", 192),
        cmd(
            "ffmpeg",
            &[
                "-y", "-loglevel", "error", "-i", "in.flac", "-codec:a", "libmp3lame", "-b:a", "192k",
                "-map_metadata", "0", "out.mp3",
            ]
        )
    );
}
