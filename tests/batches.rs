use std::collections::HashMap;

use audio_metadata::{
    edit_request, file_outcome, plan_file, process_directory, process_directory_conversion, select_files, sort_paths,
    text_le_exec, track_order, Batch, Commands, DirEntry, MetadataEdit, MetadataError, Mutation, Selection, Step,
};

fn entry(path: &str, is_file: bool) -> DirEntry {
    DirEntry { path: path.to_string(), is_file }
}

fn no_edit() -> MetadataEdit {
    MetadataEdit {
        cover: None,
        album: None,
        artist: None,
        title: None,
        track: None,
        infer_title: false,
        infer_order: false,
    }
}

/// The commands a mutation runs when every step succeeds.
fn commands(mut m: Mutation) -> Vec<String> {
    let mut out = Vec::new();
    loop {
        match m.next_step() {
            Step::Run(c) => out.push(format!("{} {}", c.program, c.args.join(" "))),
            Step::Copy { .. } => {}
            Step::Done(_) => return out,
        }
        m.advance(true);
    }
}

/// Runs a batch: each mutation fails when `fails` says so of its target.
fn run(mut batch: Batch, fails: &dyn Fn(&str) -> bool) -> (Vec<String>, usize) {
    let mut seen = Vec::new();
    while let Some(plan) = batch.take_next() {
        let edits = match plan.edits {
            Ok(mut m) => {
                seen.push(m.target().clone());
                let bad = fails(m.target());
                loop {
                    match m.next_step() {
                        Step::Copy { .. } => m.advance(true),
                        Step::Run(_) => m.advance(!bad),
                        Step::Done(r) => break r,
                    }
                }
            }
            Err(e) => Err(e),
        };
        batch.record(&file_outcome(edits, plan.title_error));
    }
    (seen, batch.errors())
}

#[test]
fn track_order_follows_sorted_names_not_the_listing() {
    let listings = [
        vec![entry("d/b.mp3", true), entry("d/a.flac", true), entry("d/c.mp3", true)],
        vec![entry("d/c.mp3", true), entry("d/b.mp3", true), entry("d/a.flac", true)],
        vec![entry("d/a.flac", true), entry("d/c.mp3", true), entry("d/b.mp3", true)],
    ];
    for listing in &listings {
        assert_eq!(track_order(listing), vec!["d/a.flac", "d/b.mp3", "d/c.mp3"]);
        let edit = MetadataEdit { infer_order: true, ..no_edit() };
        let mut batch = process_directory(listing, &edit, "/tmp/b");
        assert_eq!(batch.remaining(), 3);
        let mut numbered = Vec::new();
        while let Some(plan) = batch.take_next() {
            numbered.extend(commands(plan.edits.unwrap()));
        }
        assert_eq!(
            numbered,
            vec![
                "metaflac --remove-tag TRACKNUMBER d/a.flac",
                "metaflac --set-tag TRACKNUMBER=1 d/a.flac",
                "id3v2 --track 2 d/b.mp3",
                "id3v2 --track 3 d/c.mp3",
            ]
        );
    }
}

#[test]
fn one_failure_in_three_files_counts_once() {
    let listing = vec![entry("d/1.mp3", true), entry("d/2.flac", true), entry("d/3.mp3", true)];
    let edit = MetadataEdit { artist: Some("A".to_string()), ..no_edit() };
    let batch = process_directory(&listing, &edit, "/tmp/b");
    let (seen, errors) = run(batch, &|t| t == "d/2.flac");
    assert_eq!(seen, vec!["d/1.mp3", "d/2.flac", "d/3.mp3"]);
    assert_eq!(errors, 1);
}

#[test]
fn a_title_that_cannot_be_inferred_counts_and_the_batch_goes_on() {
    let listing = vec![entry("d/01 - .mp3", true), entry("d/02 - Two.mp3", true)];
    let edit = MetadataEdit { infer_title: true, infer_order: true, ..no_edit() };
    let mut batch = process_directory(&listing, &edit, "/tmp/b");
    let first = batch.take_next().unwrap();
    assert_eq!(first.path, "d/01 - .mp3");
    assert!(matches!(first.title_error, Some(MetadataError::InferenceFailed(_))));
    assert_eq!(commands(first.edits.unwrap()), vec!["id3v2 --track 1 d/01 - .mp3"]);
    batch.record(&file_outcome(Ok(()), first.title_error));
    let second = batch.take_next().unwrap();
    assert!(second.title_error.is_none());
    assert_eq!(
        commands(second.edits.unwrap()),
        vec!["id3v2 --song Two d/02 - Two.mp3", "id3v2 --track 2 d/02 - Two.mp3"]
    );
    batch.record(&Ok(()));
    assert!(batch.take_next().is_none());
    assert_eq!(batch.errors(), 1);
}

#[test]
fn a_file_counts_once_whatever_failed() {
    let e = MetadataError::InferenceFailed("x".to_string());
    assert_eq!(file_outcome(Ok(()), None), Ok(()));
    assert_eq!(file_outcome(Ok(()), Some(e)), Err(MetadataError::InferenceFailed("x".to_string())));
    assert_eq!(
        file_outcome(Err(MetadataError::ToolInvocationFailed), Some(MetadataError::InferenceFailed("x".to_string()))),
        Err(MetadataError::ToolInvocationFailed)
    );
}

#[test]
fn a_batch_counts_no_more_failures_than_jobs() {
    let mut batch = Batch::new(Vec::new());
    batch.record(&Err(MetadataError::IoError));
    assert_eq!(batch.errors(), 0);
    assert!(batch.take_next().is_none());
}

#[test]
fn only_regular_audio_files_are_taken() {
    let listing = vec![
        entry("d/cover.jpg", true),
        entry("d/sub.mp3", false),
        entry("d/x.Mp3", true),
        entry("d/y.flac", true),
        entry("d/z.wav", true),
    ];
    assert_eq!(select_files(&listing, Selection::Taggable), vec!["d/x.Mp3", "d/y.flac"]);
    assert_eq!(select_files(&listing, Selection::Convertible), vec!["d/y.flac"]);
}

#[test]
fn the_edits_of_a_file_come_in_a_fixed_order() {
    let edit = MetadataEdit {
        cover: Some("c.jpg".to_string()),
        album: Some("Al".to_string()),
        artist: Some("Ar".to_string()),
        title: Some("Ti".to_string()),
        track: Some(9),
        infer_title: true,
        infer_order: false,
    };
    let plan = plan_file("d/04 - Four.mp3", &edit, Some(4), "/tmp/b").edits.unwrap();
    assert_eq!(plan.backup(), "/tmp/b/04 - Four.mp3");
    let runs = commands(plan);
    assert_eq!(runs.len(), 7);
    assert!(runs[0].starts_with("ffmpeg -y -loglevel error -i /tmp/b/04 - Four.mp3 -i c.jpg "));
    assert_eq!(&runs[1..], &[
        "id3v2 --album Al d/04 - Four.mp3".to_string(),
        "id3v2 --artist Ar d/04 - Four.mp3".to_string(),
        "id3v2 --song Ti d/04 - Four.mp3".to_string(),
        "id3v2 --song Four d/04 - Four.mp3".to_string(),
        "id3v2 --track 4 d/04 - Four.mp3".to_string(),
        "id3v2 --track 9 d/04 - Four.mp3".to_string(),
    ]);
}

#[test]
fn an_empty_edit_plans_nothing() {
    assert!(commands(plan_file("x.mp3", &no_edit(), None, "/tmp/b").edits.unwrap()).is_empty());
}

#[test]
fn a_file_whose_backup_fails_gets_no_edit() {
    let edit = MetadataEdit { album: Some("Al".to_string()), artist: Some("Ar".to_string()), ..no_edit() };
    let mut m = plan_file("d/x.flac", &edit, Some(1), "/tmp/b").edits.unwrap();
    assert!(matches!(m.next_step(), Step::Copy { .. }));
    m.advance(false);
    assert_eq!(m.next_step(), Step::Done(Err(MetadataError::IoError)));
}

#[test]
fn the_backup_keeps_the_bytes_from_before_the_first_edit() {
    let edit = MetadataEdit { album: Some("Al".to_string()), artist: Some("Ar".to_string()), ..no_edit() };
    let mut m = plan_file("d/x.mp3", &edit, None, "/tmp/b").edits.unwrap();
    let mut files: HashMap<String, String> = HashMap::new();
    files.insert("d/x.mp3".to_string(), "original".to_string());
    let mut runs = 0;
    loop {
        let ok = match m.next_step() {
            Step::Copy { from, to } => {
                let bytes = files[&from].clone();
                files.insert(to, bytes);
                true
            }
            Step::Run(c) => {
                runs += 1;
                files.insert(c.args.last().unwrap().clone(), format!("edited {}", runs));
                true
            }
            Step::Done(r) => {
                assert_eq!(r, Ok(()));
                break;
            }
        };
        m.advance(ok);
    }
    assert_eq!(runs, 2);
    assert_eq!(files["/tmp/b/x.mp3"], "original");
    assert_eq!(files["d/x.mp3"], "edited 2");
}

#[test]
fn a_file_that_cannot_be_edited_gets_no_edit() {
    let edit = MetadataEdit { artist: Some("Ar".to_string()), infer_title: true, ..no_edit() };
    assert!(matches!(plan_file("d/07.mp3 ", &edit, None, "/tmp/b").edits.err(), Some(MetadataError::UnsupportedFormat(_))));
    assert!(matches!(plan_file("d/x.wav", &edit, None, "/tmp/b").edits.err(), Some(MetadataError::UnsupportedFormat(_))));
    assert!(plan_file("d/x.mp3", &edit, None, "d").edits.is_err());
}

#[test]
fn directory_conversion_takes_flac_only() {
    let listing = vec![entry("d/a.flac", true), entry("d/b.mp3", true), entry("d/c.FLAC", true)];
    let mut batch = process_directory_conversion(&listing, Some("out"), 256, "/tmp/b");
    assert_eq!(batch.remaining(), 2);
    let first = commands(batch.take_next().unwrap().edits.unwrap());
    assert_eq!(
        first,
        vec!["ffmpeg -y -loglevel error -i d/a.flac -codec:a libmp3lame -b:a 256k -map_metadata 0 out/a.mp3"]
    );
    let second = commands(batch.take_next().unwrap().edits.unwrap());
    assert!(second[0].ends_with("-i d/c.FLAC -codec:a libmp3lame -b:a 256k -map_metadata 0 out/c.mp3"));
}

#[test]
fn sorting_by_code_points() {
    let v = vec!["b".to_string(), "B".to_string(), "ab".to_string(), "a".to_string(), "\u{e9}".to_string()];
    assert_eq!(sort_paths(&v), vec!["B", "a", "ab", "b", "\u{e9}"]);
    assert!(text_le_exec("a", "ab"));
    assert!(!text_le_exec("ab", "a"));
    assert!(text_le_exec("same", "same"));
}

#[test]
fn set_requests_become_edits() {
    let cmd = Commands::SetTags {
        file: "d".to_string(),
        cover: None,
        album: Some("Al".to_string()),
        artist: None,
        title: None,
        track: Some(3),
        infer_track: true,
        infer_order: false,
    };
    let (file, edit) = edit_request(cmd).unwrap();
    assert_eq!(file, "d");
    assert_eq!(edit, MetadataEdit {
        album: Some("Al".to_string()),
        track: Some(3),
        infer_title: true,
        ..no_edit()
    });
    let conv = Commands::Convert { file: "x.flac".to_string(), output: None, bitrate: 320 };
    assert!(edit_request(conv).is_none());
}
