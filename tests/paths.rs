use audio_metadata::{audio_format, extension, file_name, file_stem, join, with_extension, AudioFormat};

#[test]
fn file_names_stems_and_extensions() {
    assert_eq!(file_name("a/b/song.flac"), Some("song.flac".to_string()));
    assert_eq!(file_stem("a/b/song.flac"), Some("song".to_string()));
    assert_eq!(extension("a/b/song.flac"), Some("flac".to_string()));
    assert_eq!(file_stem("a.b.c"), Some("a.b".to_string()));
    assert_eq!(extension("a.b.c"), Some("c".to_string()));
    assert_eq!(extension(".hidden"), None);
    assert_eq!(file_stem(".hidden"), Some(".hidden".to_string()));
    assert_eq!(extension("dot."), Some(String::new()));
    assert_eq!(file_name("dir/"), None);
    assert_eq!(file_name("a/.."), None);
    assert_eq!(file_name("."), None);
    assert_eq!(extension("noext"), None);
}

#[test]
fn joining_and_replacing_extensions() {
    assert_eq!(join("out", "x.mp3"), "out/x.mp3");
    assert_eq!(join("out/", "x.mp3"), "out/x.mp3");
    assert_eq!(join("", "x.mp3"), "x.mp3");
    assert_eq!(with_extension("a/song.flac", "mp3"), "a/song.mp3");
    assert_eq!(with_extension("a/song", "mp3"), "a/song.mp3");
    assert_eq!(with_extension("a.b/c.d.flac", "mp3"), "a.b/c.d.mp3");
}

#[test]
fn formats_by_extension() {
    assert_eq!(audio_format("x.flac"), AudioFormat::Flac);
    assert_eq!(audio_format("x.FlAc"), AudioFormat::Flac);
    assert_eq!(audio_format("x.mp3"), AudioFormat::Mp3);
    assert_eq!(audio_format("x.Mp3"), AudioFormat::Mp3);
    assert_eq!(audio_format("x.wav"), AudioFormat::Unsupported);
    assert_eq!(audio_format("flac"), AudioFormat::Unsupported);
    assert_eq!(audio_format("x.flac/"), AudioFormat::Unsupported);
}
