use audio_metadata::{
    conversion_output_path, convert_flac_to_mp3, convert_to_mp3, MetadataError, Step, DEFAULT_BITRATE,
};

#[test]
fn output_beside_the_input_or_in_the_output_directory() {
    assert_eq!(conversion_output_path("music/song.flac", None), "music/song.mp3");
    assert_eq!(conversion_output_path("song.FLAC", None), "song.mp3");
    assert_eq!(conversion_output_path("music/song.flac", Some("out")), "out/song.mp3");
    assert_eq!(conversion_output_path("music/song.flac", Some("out/")), "out/song.mp3");
    assert_eq!(conversion_output_path("music/a.b.flac", Some("out")), "out/a.b.mp3");
}

#[test]
fn converting_a_flac_file() {
    let m = convert_flac_to_mp3("music/song.flac", Some("out"), 192, "/tmp/b").unwrap();
    assert_eq!(
        m.next_step(),
        Step::Copy { from: "music/song.flac".to_string(), to: "/tmp/b/song.flac".to_string() }
    );
    let mut m = m;
    m.advance(true);
    match m.next_step() {
        Step::Run(c) => {
            assert_eq!(c.program, "ffmpeg");
            assert_eq!(
                c.args,
                vec![
                    "-y", "-loglevel", "error", "-i", "music/song.flac", "-codec:a", "libmp3lame", "-b:a",
                    "192k", "-map_metadata", "0", "out/song.mp3",
                ]
            );
        }
        other => panic!("expected the transcoder, got {:?}", other),
    }
}

#[test]
fn default_bitrate_and_sibling_output() {
    let mut m = convert_flac_to_mp3("a/x.flac", None, DEFAULT_BITRATE, "/tmp/b").unwrap();
    m.advance(true);
    match m.next_step() {
        Step::Run(c) => {
            assert_eq!(c.args[8], "320k");
            assert_eq!(c.args[11], "a/x.mp3");
        }
        other => panic!("expected the transcoder, got {:?}", other),
    }
}

#[test]
fn only_flac_is_converted() {
    assert_eq!(
        convert_flac_to_mp3("x.mp3", None, 320, "/tmp/b").err(),
        Some(MetadataError::UnsupportedFormat("mp3".to_string()))
    );
    assert_eq!(
        convert_flac_to_mp3("x", None, 320, "/tmp/b").err(),
        Some(MetadataError::UnsupportedFormat(String::new()))
    );
}

#[test]
fn a_failed_conversion_restores_the_input() {
    let mut m = convert_to_mp3("x.flac", "x.mp3", 320, "/tmp/b").unwrap();
    m.advance(true);
    m.advance(false);
    assert_eq!(m.next_step(), Step::Copy { from: "/tmp/b/x.flac".to_string(), to: "x.flac".to_string() });
    m.advance(true);
    assert_eq!(m.next_step(), Step::Done(Err(MetadataError::ToolInvocationFailed)));
}
