use std::collections::HashMap;

use audio_metadata::{
    guarded_tag_edit, set_artist, set_cover_art_with_temp, set_title_with_temp, MetadataError, Mutation, Phase,
    Step, TagField, ToolCommand,
};

/// Runs a mutation with the outcomes given, one per step, and lists the steps.
fn drive(mut m: Mutation, outcomes: &[bool]) -> (Vec<String>, Result<(), MetadataError>) {
    let mut seen = Vec::new();
    let mut next = outcomes.iter();
    loop {
        match m.next_step() {
            Step::Copy { from, to } => seen.push(format!("copy {} -> {}", from, to)),
            Step::Run(c) => seen.push(format!("run {} {}", c.program, c.args.join(" "))),
            Step::Done(r) => return (seen, r),
        }
        let ok = *next.next().expect("an outcome for each step");
        m.advance(ok);
    }
}

#[test]
fn a_successful_edit_backs_up_then_runs_each_command() {
    let m = guarded_tag_edit("d/s.flac", TagField::Artist, "Queen", "/tmp/b").unwrap();
    assert_eq!(m.target(), "d/s.flac");
    assert_eq!(m.backup(), "/tmp/b/s.flac");
    assert_eq!(m.phase(), Phase::BackingUp);
    let (steps, r) = drive(m, &[true, true, true]);
    assert_eq!(
        steps,
        vec![
            "copy d/s.flac -> /tmp/b/s.flac",
            "run metaflac --remove-tag ARTIST d/s.flac",
            "run metaflac --set-tag ARTIST=Queen d/s.flac",
        ]
    );
    assert_eq!(r, Ok(()));
}

#[test]
fn a_failed_removal_skips_the_set_and_restores() {
    let m = guarded_tag_edit("d/s.flac", TagField::Album, "A", "/tmp/b").unwrap();
    let (steps, r) = drive(m, &[true, false, true]);
    assert_eq!(
        steps,
        vec![
            "copy d/s.flac -> /tmp/b/s.flac",
            "run metaflac --remove-tag ALBUM d/s.flac",
            "copy /tmp/b/s.flac -> d/s.flac",
        ]
    );
    assert_eq!(r, Err(MetadataError::ToolInvocationFailed));
}

#[test]
fn a_failed_backup_runs_nothing() {
    let m = set_title_with_temp("s.mp3", "T", "/tmp/b").unwrap();
    let (steps, r) = drive(m, &[false]);
    assert_eq!(steps, vec!["copy s.mp3 -> /tmp/b/s.mp3"]);
    assert_eq!(r, Err(MetadataError::IoError));
}

#[test]
fn a_failed_restore_is_reported_as_such() {
    let m = set_title_with_temp("s.mp3", "T", "/tmp/b").unwrap();
    let (steps, r) = drive(m, &[true, false, false]);
    assert_eq!(steps.len(), 3);
    assert_eq!(r, Err(MetadataError::RestoreFailed));
}

#[test]
fn advancing_a_finished_mutation_changes_nothing() {
    let mut m = set_title_with_temp("s.mp3", "T", "/tmp/b").unwrap();
    m.advance(true);
    m.advance(true);
    assert_eq!(m.phase(), Phase::Committed);
    m.advance(false);
    assert_eq!(m.phase(), Phase::Committed);
    assert_eq!(m.next_step(), Step::Done(Ok(())));
}

/// Carries out steps on files held in memory; a command scribbles over its
/// last argument, the file it edits.
fn simulate(mut m: Mutation, files: &mut HashMap<String, Vec<u8>>, tool_ok: &[bool]) -> Result<(), MetadataError> {
    let mut runs = tool_ok.iter();
    loop {
        let ok = match m.next_step() {
            Step::Copy { from, to } => match files.get(&from).cloned() {
                Some(bytes) => {
                    files.insert(to, bytes);
                    true
                }
                None => false,
            },
            Step::Run(ToolCommand { args, .. }) => {
                let target = args.last().unwrap().clone();
                files.insert(target, b"half-written".to_vec());
                *runs.next().unwrap()
            }
            Step::Done(r) => return r,
        };
        m.advance(ok);
    }
}

#[test]
fn a_failed_mutation_leaves_the_bytes_as_they_were() {
    let mut files = HashMap::new();
    let original = b"ID3 original bytes".to_vec();
    files.insert("d/s.mp3".to_string(), original.clone());
    let m = guarded_tag_edit("d/s.mp3", TagField::Title, "New", "/tmp/b").unwrap();
    assert_eq!(simulate(m, &mut files, &[false]), Err(MetadataError::ToolInvocationFailed));
    assert_eq!(files["d/s.mp3"], original);

    let m = guarded_tag_edit("d/s.mp3", TagField::Title, "New", "/tmp/b").unwrap();
    assert_eq!(simulate(m, &mut files, &[true]), Ok(()));
    assert_eq!(files["d/s.mp3"], b"half-written".to_vec());
}

#[test]
fn unsupported_formats_make_no_mutation() {
    assert_eq!(
        set_title_with_temp("clip.wav", "T", "/tmp/b").err(),
        Some(MetadataError::UnsupportedFormat("wav".to_string()))
    );
    assert_eq!(
        guarded_tag_edit("clip.wav", TagField::Artist, "A", "/tmp/b").err(),
        Some(MetadataError::UnsupportedFormat("wav".to_string()))
    );
    assert_eq!(
        set_artist("clip.wav", "A", "/tmp/b").err(),
        Some(MetadataError::UnsupportedFormat("wav".to_string()))
    );
    assert_eq!(
        set_cover_art_with_temp("clip.wav", "front.png", "/tmp/b").err(),
        Some(MetadataError::UnsupportedFormat("wav".to_string()))
    );
}

#[test]
fn cover_art_reads_the_backup_and_writes_the_file() {
    let m = set_cover_art_with_temp("d/s.mp3", "front.png", "/tmp/b").unwrap();
    let (steps, r) = drive(m, &[true, true]);
    assert_eq!(
        steps,
        vec![
            "copy d/s.mp3 -> /tmp/b/s.mp3",
            "run ffmpeg -y -loglevel error -i /tmp/b/s.mp3 -i front.png -map 0:a -map 1:v -c:a copy -c:v copy \
             -id3v2_version 3 -metadata:s:v title=Cover (front) -metadata:s:v comment=Cover (front) d/s.mp3",
        ]
    );
    assert_eq!(r, Ok(()));
    assert_eq!(
        set_cover_art_with_temp("d/", "front.png", "/tmp/b").err(),
        Some(MetadataError::UnsupportedFormat(String::new()))
    );
}

#[test]
fn a_mutation_without_commands_commits_after_its_backup() {
    let m = Mutation::guard("d/s.mp3", "/tmp/b/", Vec::new()).unwrap();
    assert_eq!(m.backup(), "/tmp/b/s.mp3");
    let (steps, r) = drive(m, &[true]);
    assert_eq!(steps, vec!["copy d/s.mp3 -> /tmp/b/s.mp3"]);
    assert_eq!(r, Ok(()));
}

#[test]
fn a_backup_over_the_file_itself_is_refused() {
    assert_eq!(set_title_with_temp("d/s.mp3", "T", "d").err(), Some(MetadataError::IoError));
    assert_eq!(set_cover_art_with_temp("d/s.mp3", "c.png", "d/").err(), Some(MetadataError::IoError));
    assert!(Mutation::guard("s.mp3", "", Vec::new()).is_err());
}
