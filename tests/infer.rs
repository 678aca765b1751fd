use audio_metadata::{
    infer_track_name_from_filename, title_from_stem, track_prefix_len, trim_whitespace, MetadataError,
};

#[test]
fn test_infer_track_name_from_filename() {
    let test_cases = [
        ("03 - This Song.mp3", "This Song"),
        ("1 - Another Song.flac", "Another Song"),
        ("01. Third Song.mp3", "Third Song"),
        ("5. Fourth Song.flac", "Fourth Song"),
        ("01_Fifth Song.mp3", "Fifth Song"),
        ("10 Sixth Song.flac", "Sixth Song"),
        ("Song Without Number.mp3", "Song Without Number"),
        ("12 - Song With Numbers 123.mp3", "Song With Numbers 123"),
    ];

    for (filename, expected) in &test_cases {
        match infer_track_name_from_filename(filename) {
            Ok(track_name) => {
                assert_eq!(&track_name, expected, "Failed for filename: {}", filename);
            }
            Err(e) => {
                panic!("Error for filename '{}': {:?}", filename, e);
            }
        }
    }
}

#[test]
fn en_and_em_dashes_are_separators() {
    assert_eq!(infer_track_name_from_filename("07 \u{2013} Title.flac").unwrap(), "Title");
    assert_eq!(infer_track_name_from_filename("07\u{2014}Title.mp3").unwrap(), "Title");
    assert_eq!(infer_track_name_from_filename("07-Title.mp3").unwrap(), "Title");
}

#[test]
fn separator_with_nothing_after_fails() {
    for name in ["03 - .mp3", "03 -   .flac", "05_ .flac", "06. .mp3", "12 .mp3"] {
        match infer_track_name_from_filename(name) {
            Err(MetadataError::InferenceFailed(_)) => {}
            other => panic!("expected an inference failure for {:?}, got {:?}", name, other),
        }
    }
}

#[test]
fn digits_alone_are_a_title() {
    assert_eq!(infer_track_name_from_filename("04.mp3").unwrap(), "04");
}

#[test]
fn only_the_first_matching_prefix_is_removed() {
    assert_eq!(infer_track_name_from_filename("01 - 02 Song.mp3").unwrap(), "02 Song");
    assert_eq!(infer_track_name_from_filename("01 02 - Song.mp3").unwrap(), "02 - Song");
}

#[test]
fn directories_and_trailing_whitespace() {
    assert_eq!(infer_track_name_from_filename("music/album/03 - Song.mp3").unwrap(), "Song");
    assert_eq!(infer_track_name_from_filename("03 - Song  .mp3").unwrap(), "Song");
    assert_eq!(infer_track_name_from_filename("03 - a.b.mp3").unwrap(), "a.b");
}

#[test]
fn a_stem_without_prefix_is_kept_as_it_is() {
    assert_eq!(infer_track_name_from_filename(" Song.mp3").unwrap(), " Song");
    assert_eq!(infer_track_name_from_filename("Track.flac").unwrap(), "Track");
}

#[test]
fn a_path_without_a_file_name_fails() {
    assert!(matches!(
        infer_track_name_from_filename("music/"),
        Err(MetadataError::InferenceFailed(_))
    ));
    assert!(matches!(infer_track_name_from_filename(""), Err(MetadataError::InferenceFailed(_))));
}

#[test]
fn prefix_lengths() {
    assert_eq!(track_prefix_len("03 - Song"), 5);
    assert_eq!(track_prefix_len("01.   Song"), 6);
    assert_eq!(track_prefix_len("01_Song"), 3);
    assert_eq!(track_prefix_len("10 Song"), 3);
    assert_eq!(track_prefix_len("Song"), 0);
    assert_eq!(track_prefix_len("10"), 0);
}

#[test]
fn trimming_and_titles_of_stems() {
    assert_eq!(trim_whitespace("  a b \t"), "a b");
    assert_eq!(trim_whitespace("\u{3000}x\u{a0}"), "x");
    assert_eq!(trim_whitespace("   "), "");
    assert_eq!(title_from_stem("09 -   "), "");
    assert_eq!(title_from_stem("09 - Nine "), "Nine");
}

#[test]
fn digits_of_other_scripts_are_track_numbers() {
    assert_eq!(infer_track_name_from_filename("\u{660}\u{663} - Song.mp3").unwrap(), "Song");
    assert_eq!(infer_track_name_from_filename("\u{660}\u{663}. Song.mp3").unwrap(), "Song");
    assert_eq!(infer_track_name_from_filename("\u{660}\u{663}_Song.mp3").unwrap(), "Song");
    assert_eq!(infer_track_name_from_filename("\u{966}\u{967} Song.flac").unwrap(), "Song");
    assert_eq!(infer_track_name_from_filename("\u{ff11}\u{ff12} - Song.flac").unwrap(), "Song");
    assert!(matches!(
        infer_track_name_from_filename("\u{660}\u{663} - .mp3"),
        Err(MetadataError::InferenceFailed(_))
    ));
    assert_eq!(infer_track_name_from_filename("\u{2163} Song.mp3").unwrap(), "\u{2163} Song");
}
