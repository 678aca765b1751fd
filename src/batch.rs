//! Edits of one file, or of every suitable file of a directory, planned as a
//! queue of guarded mutations; a failure counts and the batch goes on.

use vstd::prelude::*;

use crate::edits::{conversion_output, conversion_output_path, convert_to_mp3, optional_view};
use crate::format::{audio_format, format_of, reported_extension, unsupported, AudioFormat, MetadataError};
use crate::infer::{infer_track_name_from_filename, inferred_title};
use crate::mutation::{backup_location, backup_path, guarded, Mutation, MutationView, Phase};
use crate::order::{entry_views, is_track_order, select_files, selected_paths, track_order, DirEntry, Selection};
use crate::path::string_views;
use crate::tools::{
    command_views, convert_command_spec, cover_art_command, cover_art_command_spec, decimal, decimal_string,
    tag_commands, tag_field_commands, CommandView, TagField, ToolCommand,
};

verus! {

/// The edits asked of a file or of each file of a directory. A field that is
/// absent leaves that tag alone.
#[derive(Debug, PartialEq, Eq)]
pub struct MetadataEdit {
    /// An image to embed as the front cover.
    pub cover: Option<String>,
    pub album: Option<String>,
    pub artist: Option<String>,
    pub title: Option<String>,
    pub track: Option<u32>,
    /// Set the title from the file's name.
    pub infer_title: bool,
    /// Number a directory's files by their sorted order.
    pub infer_order: bool,
}

pub open spec fn cover_commands(o: Option<String>, backup: Seq<char>, path: Seq<char>) -> Seq<CommandView> {
    match o {
        Some(c) => seq![cover_art_command_spec(backup, c@, path)],
        None => Seq::empty(),
    }
}

pub open spec fn optional_tag_commands(o: Option<String>, f: TagField, fmt: AudioFormat, path: Seq<char>) -> Seq<CommandView> {
    match o {
        Some(v) => tag_commands(fmt, f, v@, path),
        None => Seq::empty(),
    }
}

pub open spec fn track_commands(n: Option<u32>, fmt: AudioFormat, path: Seq<char>) -> Seq<CommandView> {
    match n {
        Some(t) => tag_commands(fmt, TagField::TrackNumber, decimal(t as nat), path),
        None => Seq::empty(),
    }
}

pub open spec fn inferred_title_commands(title: Option<Seq<char>>, fmt: AudioFormat, path: Seq<char>) -> Seq<CommandView> {
    match title {
        Some(t) => tag_commands(fmt, TagField::Title, t, path),
        None => Seq::empty(),
    }
}

/// The title inferred for the edit `e` of the file at `path`: none where no
/// inference is asked for or none can be made.
pub open spec fn asked_title(e: MetadataEdit, path: Seq<char>) -> Option<Seq<char>> {
    if e.infer_title {
        inferred_title(path)
    } else {
        None
    }
}

/// The commands that make the edits of a file of format `fmt` at `path`, in
/// the order they are made: cover art (read from the backup), album, artist,
/// title, the title inferred from the name (`title`, where there is one), the
/// track number from the sorted order, and the track number asked for.
pub open spec fn file_commands(
    e: MetadataEdit,
    order_track: Option<u32>,
    fmt: AudioFormat,
    path: Seq<char>,
    backup: Seq<char>,
    title: Option<Seq<char>>,
) -> Seq<CommandView> {
    cover_commands(e.cover, backup, path) + optional_tag_commands(e.album, TagField::Album, fmt, path)
        + optional_tag_commands(e.artist, TagField::Artist, fmt, path) + optional_tag_commands(
        e.title,
        TagField::Title,
        fmt,
        path,
    ) + inferred_title_commands(title, fmt, path) + track_commands(order_track, fmt, path)
        + track_commands(e.track, fmt, path)
}

/// The plan of one file: its path, the mutation that makes its edits (or the
/// error that keeps them from being made), and the error of a title that was
/// to be inferred from its name and cannot be. The title is the one edit that
/// such an error leaves out; the others, the track number from the sorted
/// order among them, are planned all the same.
pub struct FilePlan {
    pub path: String,
    pub edits: Result<Mutation, MetadataError>,
    pub title_error: Option<MetadataError>,
}

/// What planning the edits of the file at `path` gives. The edits are the
/// error for an unsupported format, or for a backup that cannot be made;
/// otherwise one mutation that backs the file up once in `dir` and then runs
/// the commands of all its edits. Beside them stands an inference error
/// exactly where a title was to be inferred and none can be.
pub open spec fn plan_matches(
    r: FilePlan,
    e: MetadataEdit,
    order_track: Option<u32>,
    path: Seq<char>,
    dir: Seq<char>,
) -> bool {
    &&& r.path@ == path
    &&& if e.infer_title && inferred_title(path) is None {
        r.title_error matches Some(MetadataError::InferenceFailed(_))
    } else {
        r.title_error is None
    }
    &&& if format_of(path) == AudioFormat::Unsupported {
        r.edits matches Err(MetadataError::UnsupportedFormat(x)) && x@ == reported_extension(path)
    } else {
        match backup_path(dir, path) {
            Some(b) => r.edits matches Ok(m) && m@ == (MutationView {
                target: path,
                backup: b,
                commands: file_commands(e, order_track, format_of(path), path, b, asked_title(e, path)),
                phase: Phase::BackingUp,
            }),
            None => r.edits matches Err(MetadataError::IoError),
        }
    }
}

/// How a file ended: as its edits ended, where they failed; otherwise with
/// its inference error, if any.
pub fn file_outcome(edits: Result<(), MetadataError>, title_error: Option<MetadataError>) -> (r: Result<
    (),
    MetadataError,
>)
    ensures
        edits is Err ==> r == edits,
        edits is Ok ==> r == match title_error {
            Some(e) => Err(e),
            None => Ok(()),
        },
{
    match edits {
        Err(e) => Err(e),
        Ok(()) => match title_error {
            Some(e) => Err(e),
            None => Ok(()),
        },
    }
}

proof fn lemma_command_views_append(a: Seq<ToolCommand>, b: Seq<ToolCommand>)
    ensures
        command_views(a + b) == command_views(a) + command_views(b),
{
    assert(command_views(a + b) =~= command_views(a) + command_views(b));
}

fn append_tag(cmds: &mut Vec<ToolCommand>, path: &str, f: TagField, value: &str)
    requires
        format_of(path@) != AudioFormat::Unsupported,
    ensures
        command_views(final(cmds)@) == command_views(old(cmds)@) + tag_commands(format_of(path@), f, value@, path@),
{
    match tag_field_commands(path, f, value) {
        Ok(mut more) => {
            let ghost a = cmds@;
            let ghost b = more@;
            cmds.append(&mut more);
            proof {
                lemma_command_views_append(a, b);
            }
        },
        Err(_) => {},
    }
}

fn append_optional_tag(cmds: &mut Vec<ToolCommand>, path: &str, f: TagField, value: &Option<String>)
    requires
        format_of(path@) != AudioFormat::Unsupported,
    ensures
        command_views(final(cmds)@) == command_views(old(cmds)@) + optional_tag_commands(*value, f, format_of(path@), path@),
{
    match value {
        Some(v) => append_tag(cmds, path, f, v.as_str()),
        None => {
            assert(command_views(cmds@) + Seq::<CommandView>::empty() =~= command_views(cmds@));
        },
    }
}

fn append_track(cmds: &mut Vec<ToolCommand>, path: &str, n: Option<u32>)
    requires
        format_of(path@) != AudioFormat::Unsupported,
    ensures
        command_views(final(cmds)@) == command_views(old(cmds)@) + track_commands(n, format_of(path@), path@),
{
    match n {
        Some(t) => {
            let s = decimal_string(t);
            append_tag(cmds, path, TagField::TrackNumber, s.as_str());
        },
        None => {
            assert(command_views(cmds@) + Seq::<CommandView>::empty() =~= command_views(cmds@));
        },
    }
}

/// Plans the edits of the file at `path` as one mutation, backed up once in
/// `temp_dir` before the first edit and restored from there if any command
/// fails; `order_track` is the track number that the sorted order of its
/// directory gives, if any. A title that cannot be inferred is reported
/// beside the plan and leaves the other edits in it. A file whose edits
/// cannot be made at all (an unsupported format, no backup to make) gets an
/// error and no mutation.
pub fn plan_file(path: &str, edit: &MetadataEdit, order_track: Option<u32>, temp_dir: &str) -> (r: FilePlan)
    ensures
        plan_matches(r, *edit, order_track, path@, temp_dir@),
{
    let (title, title_error) = if edit.infer_title {
        match infer_track_name_from_filename(path) {
            Ok(t) => (Some(t), None),
            Err(e) => (None, Some(e)),
        }
    } else {
        (None, None)
    };
    let edits = plan_edits(path, edit, order_track, temp_dir, &title);
    FilePlan { path: String::from_str(path), edits, title_error }
}

fn plan_edits(path: &str, edit: &MetadataEdit, order_track: Option<u32>, temp_dir: &str, title: &Option<String>) -> (r:
    Result<Mutation, MetadataError>)
    requires
        match title {
            Some(t) => asked_title(*edit, path@) == Some(t@),
            None => asked_title(*edit, path@) is None,
        },
    ensures
        if format_of(path@) == AudioFormat::Unsupported {
            r matches Err(MetadataError::UnsupportedFormat(x)) && x@ == reported_extension(path@)
        } else {
            match backup_path(temp_dir@, path@) {
                Some(b) => r matches Ok(m) && m@ == (MutationView {
                    target: path@,
                    backup: b,
                    commands: file_commands(*edit, order_track, format_of(path@), path@, b, asked_title(*edit, path@)),
                    phase: Phase::BackingUp,
                }),
                None => r matches Err(MetadataError::IoError),
            }
        },
{
    if let AudioFormat::Unsupported = audio_format(path) {
        return Err(unsupported(path));
    }
    let backup = match backup_location(temp_dir, path) {
        Some(b) => b,
        None => return Err(MetadataError::IoError),
    };
    let ghost e = *edit;
    let ghost fmt = format_of(path@);
    let ghost p = path@;
    let mut cmds: Vec<ToolCommand> = Vec::new();
    if let Some(c) = &edit.cover {
        cmds.push(cover_art_command(backup.as_str(), c.as_str(), path));
    }
    assert(command_views(cmds@) =~= cover_commands(e.cover, backup@, p));
    append_optional_tag(&mut cmds, path, TagField::Album, &edit.album);
    append_optional_tag(&mut cmds, path, TagField::Artist, &edit.artist);
    append_optional_tag(&mut cmds, path, TagField::Title, &edit.title);
    match title {
        Some(t) => append_tag(&mut cmds, path, TagField::Title, t.as_str()),
        None => {
            assert(command_views(cmds@) + Seq::<CommandView>::empty() =~= command_views(cmds@));
        },
    }
    append_track(&mut cmds, path, order_track);
    append_track(&mut cmds, path, edit.track);
    assert(command_views(cmds@) == file_commands(e, order_track, fmt, p, backup@, asked_title(e, p)));
    Mutation::guard(path, temp_dir, cmds)
}

/// The plans `q` are those of the files `files`, one for one. With
/// `numbered`, the file at position `i` gets track number `i + 1`.
pub open spec fn plans_match(q: Seq<FilePlan>, files: Seq<Seq<char>>, e: MetadataEdit, numbered: bool, dir: Seq<char>) -> bool {
    &&& q.len() == files.len()
    &&& forall|i: int|
        0 <= i < q.len() ==> plan_matches(
            #[trigger] q[i],
            e,
            if numbered {
                Some((i + 1) as u32)
            } else {
                None
            },
            files[i],
            dir,
        )
}

fn plan_files(files: &Vec<String>, edit: &MetadataEdit, numbered: bool, temp_dir: &str) -> (r: Vec<FilePlan>)
    requires
        numbered ==> files@.len() <= u32::MAX,
    ensures
        plans_match(r@, string_views(files@), *edit, numbered, temp_dir@),
{
    let mut q: Vec<FilePlan> = Vec::new();
    let n = files.len();
    let mut i: usize = 0;
    while i < n
        invariant
            n == files@.len(),
            i <= n,
            numbered ==> n <= u32::MAX,
            q@.len() == i,
            forall|j: int|
                0 <= j < i ==> plan_matches(
                    #[trigger] q@[j],
                    *edit,
                    if numbered {
                        Some((j + 1) as u32)
                    } else {
                        None
                    },
                    string_views(files@)[j],
                    temp_dir@,
                ),
        decreases n - i,
    {
        let track = if numbered {
            Some((i + 1) as u32)
        } else {
            None
        };
        q.push(plan_file(files[i].as_str(), edit, track, temp_dir));
        i = i + 1;
    }
    q
}

/// A batch as plain values: the jobs still to hand out, how many were handed
/// out, and how many of those failed.
pub struct BatchView {
    pub queue: Seq<FilePlan>,
    pub taken: nat,
    pub errors: nat,
}

/// The jobs of a batch, handed out one at a time, and the count of those that failed.
pub struct Batch {
    queue: Vec<FilePlan>,
    taken: usize,
    errors: usize,
}

impl View for Batch {
    type V = BatchView;

    closed spec fn view(&self) -> BatchView {
        BatchView { queue: self.queue@, taken: self.taken as nat, errors: self.errors as nat }
    }
}

/// The batch once its next job is handed out.
pub open spec fn after_take(v: BatchView) -> BatchView {
    if v.queue.len() > 0 {
        BatchView { queue: v.queue.drop_first(), taken: v.taken + 1, ..v }
    } else {
        v
    }
}

/// The batch once the outcome of a job is known: a failure counts, as long as
/// failures do not outnumber the jobs handed out.
pub open spec fn after_record(v: BatchView, failed: bool) -> BatchView {
    if failed && v.errors < v.taken {
        BatchView { errors: v.errors + 1, ..v }
    } else {
        v
    }
}

impl Batch {
    /// Failures never outnumber the jobs handed out, and the count of jobs
    /// fits in a `usize`.
    pub open spec fn wf(&self) -> bool {
        &&& self@.errors <= self@.taken
        &&& self@.taken + self@.queue.len() <= usize::MAX
    }

    /// A batch of these jobs, none handed out yet.
    pub fn new(jobs: Vec<FilePlan>) -> (r: Batch)
        ensures
            r@ == (BatchView { queue: jobs@, taken: 0, errors: 0 }),
            r.wf(),
    {
        let n = jobs.len();
        assert(n == jobs@.len());
        Batch { queue: jobs, taken: 0, errors: 0 }
    }

    /// Hands out the next job, in the order planned, whatever became of the
    /// ones before it.
    pub fn take_next(&mut self) -> (r: Option<FilePlan>)
        requires
            old(self).wf(),
        ensures
            final(self).wf(),
            r == (if old(self)@.queue.len() > 0 {
                Some(old(self)@.queue[0])
            } else {
                None
            }),
            final(self)@ == after_take(old(self)@),
    {
        if self.queue.len() == 0 {
            return None;
        }
        let job = self.queue.remove(0);
        self.taken = self.taken + 1;
        Some(job)
    }

    /// Records how a job handed out ended.
    pub fn record(&mut self, outcome: &Result<(), MetadataError>)
        requires
            old(self).wf(),
        ensures
            final(self).wf(),
            final(self)@ == after_record(old(self)@, outcome is Err),
    {
        if outcome.is_err() && self.errors < self.taken {
            self.errors = self.errors + 1;
        }
    }

    /// How many of the jobs handed out failed.
    pub fn errors(&self) -> (r: usize)
        ensures
            r == self@.errors,
    {
        self.errors
    }

    /// How many jobs are left.
    pub fn remaining(&self) -> (r: usize)
        ensures
            r == self@.queue.len(),
    {
        self.queue.len()
    }
}

/// The batch after each of its jobs is handed out in turn and ends as
/// `failures` says (`true`: it failed).
pub open spec fn run_batch(v: BatchView, failures: Seq<bool>) -> BatchView
    decreases failures.len(),
{
    if failures.len() == 0 {
        v
    } else {
        after_record(after_take(run_batch(v, failures.drop_last())), failures.last())
    }
}

pub open spec fn count_failures(failures: Seq<bool>) -> nat
    decreases failures.len(),
{
    if failures.len() == 0 {
        0
    } else {
        count_failures(failures.drop_last()) + if failures.last() {
            1nat
        } else {
            0nat
        }
    }
}

proof fn lemma_count_failures_bound(failures: Seq<bool>)
    ensures
        count_failures(failures) <= failures.len(),
    decreases failures.len(),
{
    if failures.len() > 0 {
        lemma_count_failures_bound(failures.drop_last());
    }
}

/// A failed job does not stop a batch: with its jobs handed out in turn and
/// each outcome recorded, every job is handed out, in the planned order, and
/// the error count is the number of jobs that failed.
pub proof fn lemma_batch_counts_each_failure(v: BatchView, failures: Seq<bool>)
    requires
        v.taken == 0,
        v.errors == 0,
        failures.len() <= v.queue.len(),
    ensures
        run_batch(v, failures).taken == failures.len(),
        run_batch(v, failures).queue == v.queue.skip(failures.len() as int),
        run_batch(v, failures).errors == count_failures(failures),
    decreases failures.len(),
{
    if failures.len() == 0 {
        assert(v.queue.skip(0) =~= v.queue);
    } else {
        let d = failures.drop_last();
        lemma_batch_counts_each_failure(v, d);
        lemma_count_failures_bound(d);
        assert(v.queue.skip(d.len() as int).drop_first() =~= v.queue.skip(failures.len() as int));
    }
}

/// Plans the edits of the taggable files among `entries` (regular FLAC and
/// MP3 files), each file backed up once in `temp_dir`, as a batch of one job
/// per file. With `infer_order` the files are taken in sorted order, and the
/// file at position `i` gets track number `i + 1`, so that the files are
/// numbered 1 to n, once each, in the order of their paths; otherwise they are
/// taken in the order of the listing.
pub fn process_directory(entries: &Vec<DirEntry>, edit: &MetadataEdit, temp_dir: &str) -> (r: Batch)
    requires
        edit.infer_order ==> entries@.len() <= u32::MAX,
    ensures
        r.wf(),
        r@.taken == 0,
        r@.errors == 0,
        edit.infer_order ==> exists|files: Seq<Seq<char>>|
            is_track_order(files, entry_views(entries@)) && plans_match(r@.queue, files, *edit, true, temp_dir@),
        !edit.infer_order ==> plans_match(
            r@.queue,
            selected_paths(entry_views(entries@), Selection::Taggable),
            *edit,
            false,
            temp_dir@,
        ),
{
    if edit.infer_order {
        let files = track_order(entries);
        proof {
            crate::order::lemma_track_order_len(string_views(files@), entry_views(entries@));
        }
        let jobs = plan_files(&files, edit, true, temp_dir);
        let r = Batch::new(jobs);
        assert(is_track_order(string_views(files@), entry_views(entries@)));
        r
    } else {
        let files = select_files(entries, Selection::Taggable);
        Batch::new(plan_files(&files, edit, false, temp_dir))
    }
}

/// The plan of converting the file at `path`: its backup in `dir`, then the
/// transcoder run into `output_dir` or beside it.
pub open spec fn conversion_matches(
    r: FilePlan,
    path: Seq<char>,
    output_dir: Option<Seq<char>>,
    bitrate: u32,
    dir: Seq<char>,
) -> bool {
    &&& r.path@ == path
    &&& r.title_error is None
    &&& guarded(r.edits, path, dir, seq![convert_command_spec(path, conversion_output(path, output_dir), bitrate)])
}

/// Plans the conversion to MP3 of the FLAC files among `entries`, each into
/// `output_dir` or beside it, as a batch.
pub fn process_directory_conversion(entries: &Vec<DirEntry>, output_dir: Option<&str>, bitrate: u32, temp_dir: &str) -> (r: Batch)
    ensures
        r.wf(),
        r@.taken == 0,
        r@.errors == 0,
        ({
            let files = selected_paths(entry_views(entries@), Selection::Convertible);
            &&& r@.queue.len() == files.len()
            &&& forall|i: int|
                0 <= i < files.len() ==> conversion_matches(
                    #[trigger] r@.queue[i],
                    files[i],
                    optional_view(output_dir),
                    bitrate,
                    temp_dir@,
                )
        }),
{
    let files = select_files(entries, Selection::Convertible);
    let ghost fv = string_views(files@);
    let mut q: Vec<FilePlan> = Vec::new();
    let n = files.len();
    let mut i: usize = 0;
    while i < n
        invariant
            n == files@.len(),
            fv == string_views(files@),
            i <= n,
            q@.len() == i,
            forall|j: int|
                0 <= j < i ==> conversion_matches(#[trigger] q@[j], fv[j], optional_view(output_dir), bitrate, temp_dir@),
        decreases n - i,
    {
        let path = files[i].as_str();
        let output = conversion_output_path(path, output_dir);
        let edits = convert_to_mp3(path, output.as_str(), bitrate, temp_dir);
        q.push(FilePlan { path: String::from_str(path), edits, title_error: None });
        i = i + 1;
    }
    Batch::new(q)
}

} // verus!
