//! The run tracker: which run is active, what an event asks for, and what
//! the data files of the run contribute to a broadcast.

use vstd::prelude::*;
use vstd::std_specs::iter::IteratorSpec;
use vstd::string::StringExecFns;
use crate::buffer::contents;
use crate::event::{texts, CreateKind, Event, EventKind};
use crate::file::{
    header_view, open_outcome, CompassFile, CompassFileError, CompassFileErrorView,
    CompassFileView, FILE_HEADER_SIZE,
};
use crate::message::{
    convert_messages_to_bytes, serialized, views, Message, MessageView, MESSAGE_HEADER_SIZE,
};
use crate::path::{
    chars_of, contains_chars, final_segment_of, is_data_file, names_data_file, names_run_dir,
    RUN_MARKER,
};

verus! {

broadcast use vstd::std_specs::vec::group_vec_axioms;

/// The number of buffers that may wait between the tracker and the
/// broadcaster. A tracker that finds the queue full waits.
pub const DATA_QUEUE_CAPACITY: usize = 10;

/// The name of the subdirectory that a run directory must hold.
pub const DATA_DIRECTORY: &'static str = "UNFILTERED";

/// Why the tracker could not follow a project or a run.
#[derive(Debug)]
pub enum ProjectError {
    /// The project directory does not exist.
    ProjectDirError,
    /// The run directory is missing, is no directory, or lacks its data
    /// subdirectory.
    RunDirError,
    /// The run directory could not be listed, for this reason.
    ProjectIOError(String),
    /// A data file of the run could not be opened or read.
    RunFileError(CompassFileError),
}

/// A tracker error as a mathematical value.
pub enum ProjectErrorView {
    ProjectDirError,
    RunDirError,
    ProjectIOError(Seq<char>),
    RunFileError(CompassFileErrorView),
}

impl ProjectErrorView {
    /// The error in words.
    pub open spec fn text(self) -> Seq<char> {
        match self {
            ProjectErrorView::ProjectDirError => {
                "Project encountered a top level directory error!"@
            },
            ProjectErrorView::RunDirError => "Project encountered a run directory error!"@,
            ProjectErrorView::ProjectIOError(cause) => {
                "Project encountered a generic io error: "@ + cause
            },
            ProjectErrorView::RunFileError(error) => {
                "Project encountered an error with the run files: "@ + error.text()
            },
        }
    }
}

impl View for ProjectError {
    type V = ProjectErrorView;

    open spec fn view(&self) -> ProjectErrorView {
        match self {
            ProjectError::ProjectDirError => ProjectErrorView::ProjectDirError,
            ProjectError::RunDirError => ProjectErrorView::RunDirError,
            ProjectError::ProjectIOError(cause) => ProjectErrorView::ProjectIOError(cause@),
            ProjectError::RunFileError(error) => ProjectErrorView::RunFileError(error@),
        }
    }
}

impl ProjectError {
    /// The error in words, for a log line.
    pub fn describe(&self) -> (text: String)
        ensures
            text@ == self@.text(),
    {
        match self {
            ProjectError::ProjectDirError => String::from_str(
                "Project encountered a top level directory error!",
            ),
            ProjectError::RunDirError => String::from_str(
                "Project encountered a run directory error!",
            ),
            ProjectError::ProjectIOError(cause) => {
                let mut text = String::from_str("Project encountered a generic io error: ");
                text.append(cause.as_str());
                text
            },
            ProjectError::RunFileError(error) => {
                let mut text = String::from_str(
                    "Project encountered an error with the run files: ",
                );
                let inner = error.describe();
                text.append(inner.as_str());
                text
            },
        }
    }
}

impl From<CompassFileError> for ProjectError {
    /// A file error, as the error of the run that the file belongs to.
    fn from(value: CompassFileError) -> (error: ProjectError) {
        ProjectError::RunFileError(value)
    }
}

impl vstd::std_specs::convert::FromSpecImpl<CompassFileError> for ProjectError {
    open spec fn obeys_from_spec() -> bool {
        true
    }

    open spec fn from_spec(value: CompassFileError) -> ProjectError {
        ProjectError::RunFileError(value)
    }
}

/// Whether the path names a run directory: its final segment holds the run
/// marker. The path need not exist, and need not be a directory: only its
/// name is looked at.
pub fn is_run_dir(dir: &str) -> (named: bool)
    ensures
        named == names_run_dir(dir@),
{
    let name = final_segment_of(dir);
    let marker = chars_of(RUN_MARKER);
    contains_chars(&name, &marker)
}

/// The data subdirectory of a run directory, as a path.
pub open spec fn data_directory(run_dir: Seq<char>) -> Seq<char> {
    run_dir + "/"@ + DATA_DIRECTORY@
}

/// The data subdirectory of a run directory, as a path.
pub fn data_directory_of(run_dir: &str) -> (path: String)
    ensures
        path@ == data_directory(run_dir@),
{
    let mut path = String::from_str(run_dir);
    path.append("/");
    path.append(DATA_DIRECTORY);
    path
}

/// The index of the first of the paths that names a run directory.
pub open spec fn first_run_dir(paths: Seq<Seq<char>>) -> Option<int>
    decreases paths.len(),
{
    if paths.len() == 0 {
        None
    } else if names_run_dir(paths[0]) {
        Some(0)
    } else {
        match first_run_dir(paths.drop_first()) {
            Some(i) => Some(i + 1),
            None => None,
        }
    }
}

/// The index of the first of the paths that names a data file.
pub open spec fn first_data_file(paths: Seq<Seq<char>>) -> Option<int>
    decreases paths.len(),
{
    if paths.len() == 0 {
        None
    } else if names_data_file(paths[0]) {
        Some(0)
    } else {
        match first_data_file(paths.drop_first()) {
            Some(i) => Some(i + 1),
            None => None,
        }
    }
}

/// The first run directory among the paths is one, and none before it is;
/// where there is no first, none of the paths is one.
pub proof fn lemma_first_run_dir(paths: Seq<Seq<char>>)
    ensures
        match first_run_dir(paths) {
            Some(i) => {
                &&& 0 <= i < paths.len()
                &&& names_run_dir(paths[i])
                &&& forall|j: int| 0 <= j < i ==> !names_run_dir(#[trigger] paths[j])
            },
            None => forall|j: int| 0 <= j < paths.len() ==> !names_run_dir(#[trigger] paths[j]),
        },
    decreases paths.len(),
{
    if paths.len() > 0 && !names_run_dir(paths[0]) {
        let rest = paths.drop_first();
        lemma_first_run_dir(rest);
        assert(forall|j: int| 1 <= j < paths.len() ==> paths[j] == rest[j - 1]);
    }
}

/// The first data file among the paths is one, and none before it is;
/// where there is no first, none of the paths is one.
pub proof fn lemma_first_data_file(paths: Seq<Seq<char>>)
    ensures
        match first_data_file(paths) {
            Some(i) => {
                &&& 0 <= i < paths.len()
                &&& names_data_file(paths[i])
                &&& forall|j: int| 0 <= j < i ==> !names_data_file(#[trigger] paths[j])
            },
            None => forall|j: int| 0 <= j < paths.len() ==> !names_data_file(#[trigger] paths[j]),
        },
    decreases paths.len(),
{
    if paths.len() > 0 && !names_data_file(paths[0]) {
        let rest = paths.drop_first();
        lemma_first_data_file(rest);
        assert(forall|j: int| 1 <= j < paths.len() ==> paths[j] == rest[j - 1]);
    }
}

/// One entry of a run directory, as the host found it.
#[derive(Debug)]
pub struct RunDirEntry {
    /// The path of the entry.
    pub path: String,
    /// The first two bytes of the file, or why they could not be read. Only
    /// the header of a data file is looked at.
    pub header: Result<[u8; 2], String>,
}

/// What the host found at the path of a directory that is named like a run.
#[derive(Debug)]
pub struct RunScan {
    /// The path of the directory.
    pub path: String,
    /// Whether anything exists at the path.
    pub exists: bool,
    /// Whether it is a directory.
    pub is_dir: bool,
    /// Whether the data subdirectory exists under it.
    pub has_data_dir: bool,
    /// The entries directly under the directory, in the order they were
    /// listed, each with its path or the reason it could not be read; or
    /// why the directory could not be listed at all.
    pub entries: Result<Vec<Result<RunDirEntry, String>>, String>,
}

/// The decoders of a listing: one for each data file among the entries
/// that could be opened, in order. A data file that could not be opened,
/// because it could not be read or holds waveforms, is never added, and the
/// listing goes on with the entries after it. Only an entry that could not
/// be listed fails the whole listing.
pub open spec fn decoders_of(entries: Seq<Result<RunDirEntry, String>>) -> Result<
    Seq<CompassFileView>,
    ProjectErrorView,
>
    decreases entries.len(),
{
    if entries.len() == 0 {
        Ok(Seq::empty())
    } else {
        match decoders_of(entries.drop_last()) {
            Err(error) => Err(error),
            Ok(files) => match entries.last() {
                Err(cause) => Err(ProjectErrorView::ProjectIOError(cause@)),
                Ok(entry) => if names_data_file(entry.path@) {
                    match open_outcome(entry.path@, header_view(entry.header)) {
                        Err(_) => Ok(files),
                        Ok(file) => Ok(files.push(file)),
                    }
                } else {
                    Ok(files)
                },
            },
        }
    }
}

/// What comes of a scan: the run, or why there is none.
pub open spec fn run_outcome(scan: RunScan) -> Result<ActiveRunView, ProjectErrorView> {
    if !scan.exists || !scan.is_dir || !scan.has_data_dir {
        Err(ProjectErrorView::RunDirError)
    } else {
        match scan.entries {
            Err(cause) => Err(ProjectErrorView::ProjectIOError(cause@)),
            Ok(entries) => match decoders_of(entries@) {
                Err(error) => Err(error),
                Ok(files) => Ok(
                    ActiveRunView { directory: data_directory(scan.path@), data_files: files },
                ),
            },
        }
    }
}

/// A data file that cannot be opened is never added: a listing that ends
/// with such a file has the decoders of the listing without it. So it is
/// with a data file that holds waveforms, whatever else its header holds.
pub proof fn lemma_unopened_file_is_never_added(
    earlier: Seq<Result<RunDirEntry, String>>,
    entry: RunDirEntry,
)
    requires
        names_data_file(entry.path@),
        open_outcome(entry.path@, header_view(entry.header)) is Err,
    ensures
        decoders_of(earlier.push(Ok(entry))) == decoders_of(earlier),
{
    let listed = earlier.push(Ok(entry));
    assert(listed.drop_last() =~= earlier);
    assert(listed.last() == Ok::<RunDirEntry, String>(entry));
}

/// A run begins whatever its data files hold: where every entry could be
/// listed, the listing has its decoders, and each of them is well formed,
/// with no waveforms and its cursor just behind the header.
pub proof fn lemma_file_failures_do_not_fail_the_run(entries: Seq<Result<RunDirEntry, String>>)
    requires
        forall|i: int| 0 <= i < entries.len() ==> (#[trigger] entries[i]) is Ok,
    ensures
        decoders_of(entries) matches Ok(files) && forall|i: int|
            0 <= i < files.len() ==> (#[trigger] files[i]).well_formed() && files[i].cursor
                == FILE_HEADER_SIZE,
    decreases entries.len(),
{
    if entries.len() > 0 {
        let earlier = entries.drop_last();
        assert forall|i: int| 0 <= i < earlier.len() implies (#[trigger] earlier[i]) is Ok by {
            assert(earlier[i] == entries[i]);
        }
        lemma_file_failures_do_not_fail_the_run(earlier);
    }
}

/// The active run: its data directory, and a decoder for each data file
/// that was found when the run began.
#[derive(Debug)]
pub struct ActiveRun {
    directory: String,
    data_files: Vec<CompassFile>,
}

/// A run as a mathematical value.
pub struct ActiveRunView {
    /// The data subdirectory of the run.
    pub directory: Seq<char>,
    /// The decoders, in the order their files were listed.
    pub data_files: Seq<CompassFileView>,
}

/// The views of a list of decoders, in order.
pub open spec fn file_views(files: Seq<CompassFile>) -> Seq<CompassFileView> {
    files.map_values(|file: CompassFile| file@)
}

/// The views of what was read of the files, in order: the contents of
/// each, or why it could not be read.
pub open spec fn snapshot_views(snapshots: Seq<Result<Vec<u8>, String>>) -> Seq<
    Result<Seq<u8>, Seq<char>>,
> {
    snapshots.map_values(
        |snapshot: Result<Vec<u8>, String>|
            match snapshot {
                Ok(bytes) => Ok(bytes@),
                Err(cause) => Err(cause@),
            },
    )
}

/// Whether a message can carry these contents: their length and the fixed
/// fields together fit the size field.
pub open spec fn fits_message(contents: Seq<u8>) -> bool {
    MESSAGE_HEADER_SIZE + contents.len() <= u64::MAX
}

/// The contents that were read of the file at `index`, if any were that a
/// message can carry.
pub open spec fn snapshot_at(snapshots: Seq<Result<Seq<u8>, Seq<char>>>, index: int) -> Option<
    Seq<u8>,
> {
    if 0 <= index < snapshots.len() {
        match snapshots[index] {
            Ok(bytes) => if fits_message(bytes) {
                Some(bytes)
            } else {
                None
            },
            Err(_) => None,
        }
    } else {
        None
    }
}

/// The messages that a read of all files gives: one from each decoder
/// whose file could be read, in the order of the decoders. A decoder whose
/// file could not be read, or is too large for a message, or for which
/// nothing was handed in, gives none.
pub open spec fn messages_of(
    files: Seq<CompassFileView>,
    snapshots: Seq<Result<Seq<u8>, Seq<char>>>,
) -> Seq<MessageView>
    decreases files.len(),
{
    if files.len() == 0 {
        Seq::empty()
    } else {
        let earlier = messages_of(files.drop_last(), snapshots);
        let file = files.last();
        match snapshot_at(snapshots, files.len() - 1) {
            Some(bytes) => earlier.push(file.message_of(bytes)),
            None => earlier,
        }
    }
}

/// A decoder after a read of all files: its cursor has moved to the end of
/// what was read of its file; where nothing was read it is as it was.
pub open spec fn file_after(
    file: CompassFileView,
    snapshots: Seq<Result<Seq<u8>, Seq<char>>>,
    index: int,
) -> CompassFileView {
    match snapshot_at(snapshots, index) {
        Some(bytes) => file.after_read(bytes),
        None => file,
    }
}

/// The decoders after a read of all files.
pub open spec fn files_after(
    files: Seq<CompassFileView>,
    snapshots: Seq<Result<Seq<u8>, Seq<char>>>,
) -> Seq<CompassFileView> {
    Seq::new(files.len(), |i: int| file_after(files[i], snapshots, i))
}

impl View for ActiveRun {
    type V = ActiveRunView;

    closed spec fn view(&self) -> ActiveRunView {
        ActiveRunView { directory: self.directory@, data_files: file_views(self.data_files@) }
    }
}

impl ActiveRun {
    /// Begins a run from what the host found at its directory. The run
    /// needs the directory to exist, to be a directory and to hold the data
    /// subdirectory, and its entries to be listed; it then opens a decoder
    /// for every data file directly under the directory, in the order
    /// listed. A data file that cannot be opened is left out of the run,
    /// which begins with the others.
    pub fn new(scan: RunScan) -> (begun: Result<ActiveRun, ProjectError>)
        ensures
            match begun {
                Ok(run) => run_outcome(scan) == Ok::<ActiveRunView, ProjectErrorView>(run@),
                Err(error) => run_outcome(scan) == Err::<ActiveRunView, ProjectErrorView>(error@),
            },
    {
        if !scan.exists || !scan.is_dir {
            return Err(ProjectError::RunDirError);
        }
        if !scan.has_data_dir {
            return Err(ProjectError::RunDirError);
        }
        let directory = data_directory_of(scan.path.as_str());
        let entries = match scan.entries {
            Ok(entries) => entries,
            Err(cause) => {
                return Err(ProjectError::ProjectIOError(cause));
            },
        };
        let ghost listed = entries@;
        let mut data_files: Vec<CompassFile> = Vec::new();
        assert(listed.subrange(0, 0) =~= Seq::empty());
        assert(file_views(data_files@) =~= Seq::empty());
        for item in it: entries
            invariant
                it.seq() == listed,
                scan.exists && scan.is_dir && scan.has_data_dir,
                scan.entries matches Ok(list) && list@ == listed,
                decoders_of(listed.subrange(0, it.index() as int)) == Ok::<
                    Seq<CompassFileView>,
                    ProjectErrorView,
                >(file_views(data_files@)),
        {
            let ghost done = it.index() as int;
            proof {
                let before = listed.subrange(0, done);
                let upto = listed.subrange(0, done + 1);
                assert(item == listed[done]);
                assert(upto.drop_last() =~= before);
                assert(upto.last() == item);
                lemma_decoders_fail_on(listed, done + 1);
            }
            let entry = match item {
                Ok(entry) => entry,
                Err(cause) => {
                    return Err(ProjectError::ProjectIOError(cause));
                },
            };
            if is_data_file(entry.path.as_str()) {
                match CompassFile::new(entry.path.as_str(), entry.header) {
                    Ok(file) => {
                        assert(file_views(data_files@.push(file)) =~= file_views(
                            data_files@,
                        ).push(file@));
                        data_files.push(file);
                    },
                    Err(_) => {},
                }
            }
        }
        assert(listed.subrange(0, listed.len() as int) =~= listed);
        Ok(ActiveRun { directory, data_files })
    }

    /// Reads what every data file of the run has gained, given what the
    /// host read of each: for the decoder at each position, the contents of
    /// its file as they stand, or why they could not be read. Each decoder
    /// whose file was read contributes one message, an empty one where the
    /// file has not grown, and moves its cursor; the others contribute
    /// nothing and stay as they were. So does a decoder whose file is too
    /// large for the size field of a message. The messages come in the
    /// order of the decoders.
    pub fn read_messages(&mut self, snapshots: Vec<Result<Vec<u8>, String>>) -> (messages: Vec<
        Message,
    >)
        ensures
            views(messages@) == messages_of(old(self)@.data_files, snapshot_views(snapshots@)),
            final(self)@ == (ActiveRunView {
                data_files: files_after(old(self)@.data_files, snapshot_views(snapshots@)),
                ..old(self)@
            }),
    {
        let ghost before = self@.data_files;
        let ghost read = snapshot_views(snapshots@);
        let mut messages: Vec<Message> = Vec::new();
        let mut at: usize = 0;
        let total: usize = snapshots.len();
        assert(before.take(0) =~= Seq::empty());
        assert(views(messages@) =~= Seq::empty());
        for snapshot in it: snapshots
            invariant
                at == it.index(),
                it.seq() == snapshots@,
                total == snapshots@.len(),
                read == snapshot_views(snapshots@),
                self.directory == old(self).directory,
                self.data_files@.len() == before.len(),
                before == old(self)@.data_files,
                forall|i: int|
                    0 <= i < before.len() ==> (#[trigger] self.data_files@[i])@ == (if i < at {
                        file_after(before[i], read, i)
                    } else {
                        before[i]
                    }),
                views(messages@) == messages_of(
                    before.take(if at <= before.len() {
                        at as int
                    } else {
                        before.len() as int
                    }),
                    read,
                ),
        {
            if at < self.data_files.len() {
                proof {
                    assert(read[at as int] == snapshot_views(snapshots@)[at as int]);
                    assert(before.take(at + 1).drop_last() =~= before.take(at as int));
                    assert(before.take(at + 1).last() == before[at as int]);
                    assert(self.data_files@[at as int]@ == before[at as int]);
                }
                let fits = match &snapshot {
                    Ok(bytes) => bytes.len() as u64 <= u64::MAX - MESSAGE_HEADER_SIZE,
                    Err(_) => true,
                };
                if fits {
                    match self.data_files[at].read_data(snapshot) {
                        Ok(message) => {
                            assert(views(messages@.push(message)) =~= views(messages@).push(
                                message@,
                            ));
                            messages.push(message);
                        },
                        Err(_) => {},
                    }
                }
            }
            at = at + 1;
        }
        proof {
            let upto = if at <= before.len() {
                at as int
            } else {
                before.len() as int
            };
            assert(at == read.len());
            if at <= before.len() {
                lemma_messages_beyond(before, read, upto);
            } else {
                assert(before.take(upto) =~= before);
            }
            assert(file_views(self.data_files@) =~= files_after(before, read));
        }
        messages
    }

    /// Reads what every data file of the run has gained, as `read_messages`
    /// does, and lays the messages out as one buffer.
    pub fn read_data_from_all_files(&mut self, snapshots: Vec<Result<Vec<u8>, String>>) -> (buffer:
        bytes::Bytes)
        ensures
            contents(buffer) == serialized(
                messages_of(old(self)@.data_files, snapshot_views(snapshots@)),
            ),
            final(self)@ == (ActiveRunView {
                data_files: files_after(old(self)@.data_files, snapshot_views(snapshots@)),
                ..old(self)@
            }),
    {
        let messages = self.read_messages(snapshots);
        convert_messages_to_bytes(messages)
    }

    /// The data subdirectory of the run.
    pub fn directory(&self) -> (path: &str)
        ensures
            path@ == self@.directory,
    {
        self.directory.as_str()
    }

    /// The paths of the data files of the run, in the order of its
    /// decoders.
    pub fn file_paths(&self) -> (paths: Vec<String>)
        ensures
            texts(paths@) == file_paths_of(self@.data_files),
    {
        let mut paths: Vec<String> = Vec::new();
        let mut at: usize = 0;
        while at < self.data_files.len()
            invariant
                at <= self.data_files@.len(),
                texts(paths@) == file_paths_of(self@.data_files).take(at as int),
            decreases self.data_files@.len() - at,
        {
            let path = String::from_str(self.data_files[at].filepath());
            proof {
                let all = file_paths_of(self@.data_files);
                assert(all[at as int] == self.data_files@[at as int]@.filepath);
                assert(all.take(at + 1) =~= all.take(at as int).push(path@));
                assert(texts(paths@.push(path)) =~= texts(paths@).push(path@));
            }
            paths.push(path);
            at = at + 1;
        }
        assert(file_paths_of(self@.data_files).take(at as int) =~= file_paths_of(
            self@.data_files,
        ));
        paths
    }
}

/// The paths of a list of decoders, in order.
pub open spec fn file_paths_of(files: Seq<CompassFileView>) -> Seq<Seq<char>> {
    files.map_values(|file: CompassFileView| file.filepath)
}

/// Decoders for which nothing was handed in give no message.
pub proof fn lemma_messages_beyond(
    files: Seq<CompassFileView>,
    snapshots: Seq<Result<Seq<u8>, Seq<char>>>,
    upto: int,
)
    requires
        0 <= upto <= files.len(),
        snapshots.len() <= upto,
    ensures
        messages_of(files, snapshots) == messages_of(files.take(upto), snapshots),
    decreases files.len() - upto,
{
    if upto < files.len() {
        lemma_messages_beyond(files.drop_last(), snapshots, upto);
        assert(files.drop_last().take(upto) =~= files.take(upto));
    } else {
        assert(files.take(upto) =~= files);
    }
}

/// A listing fails as soon as a part of it from the start fails, and with
/// the same error.
pub proof fn lemma_decoders_fail_on(entries: Seq<Result<RunDirEntry, String>>, upto: int)
    requires
        0 <= upto <= entries.len(),
    ensures
        decoders_of(entries.subrange(0, upto)) matches Err(error) ==> decoders_of(entries) == Err::<
            Seq<CompassFileView>,
            ProjectErrorView,
        >(error),
    decreases entries.len() - upto,
{
    if upto < entries.len() {
        lemma_decoders_fail_on(entries, upto + 1);
        assert(entries.subrange(0, upto + 1).drop_last() =~= entries.subrange(0, upto));
    } else {
        assert(entries.subrange(0, upto) =~= entries);
    }
}

/// What the tracker asks of its host after an event.
#[derive(Debug)]
pub enum Request {
    /// Nothing: the event does not concern the tracker.
    Nothing,
    /// Look at this directory, which is named like a run, and at the data
    /// subdirectory it should hold, and hand what was found to
    /// `Project::start_run`.
    ScanRunDirectory { directory: String, data_directory: String },
    /// Read these files whole, in this order, and hand what was read to
    /// `Project::read_data_from_all_files`.
    ReadDataFiles(Vec<String>),
}

/// A request as a mathematical value.
pub enum RequestView {
    Nothing,
    ScanRunDirectory { directory: Seq<char>, data_directory: Seq<char> },
    ReadDataFiles(Seq<Seq<char>>),
}

impl View for Request {
    type V = RequestView;

    open spec fn view(&self) -> RequestView {
        match self {
            Request::Nothing => RequestView::Nothing,
            Request::ScanRunDirectory { directory, data_directory } => {
                RequestView::ScanRunDirectory {
                    directory: directory@,
                    data_directory: data_directory@,
                }
            },
            Request::ReadDataFiles(paths) => RequestView::ReadDataFiles(texts(paths@)),
        }
    }
}

/// The tracker of one project directory: it holds the active run, if there
/// is one.
#[derive(Debug)]
pub struct Project {
    project_path: String,
    active_run: Option<ActiveRun>,
}

/// A tracker as a mathematical value.
pub struct ProjectView {
    /// The project directory.
    pub project_path: Seq<char>,
    /// The active run, if there is one.
    pub active_run: Option<ActiveRunView>,
}

impl View for Project {
    type V = ProjectView;

    closed spec fn view(&self) -> ProjectView {
        ProjectView {
            project_path: self.project_path@,
            active_run: match self.active_run {
                Some(run) => Some(run@),
                None => None,
            },
        }
    }
}

/// What the creation of a directory asks for: a scan of the first of the
/// paths that names a run directory. The other paths are not looked at.
pub open spec fn create_request(paths: Seq<Seq<char>>) -> RequestView {
    match first_run_dir(paths) {
        Some(i) => RequestView::ScanRunDirectory {
            directory: paths[i],
            data_directory: data_directory(paths[i]),
        },
        None => RequestView::Nothing,
    }
}

/// What a modification asks for: where there is an active run and one of
/// the paths names a data file, a read of every data file of the run, not
/// only of the one that was modified.
pub open spec fn modify_request(project: ProjectView, paths: Seq<Seq<char>>) -> RequestView {
    match project.active_run {
        Some(run) => if first_data_file(paths) is Some {
            RequestView::ReadDataFiles(file_paths_of(run.data_files))
        } else {
            RequestView::Nothing
        },
        None => RequestView::Nothing,
    }
}

/// What an event asks for. Only the creation of a directory and a
/// modification, of whatever kind, count; every other event is passed
/// over.
pub open spec fn request_for(
    project: ProjectView,
    kind: EventKind,
    paths: Seq<Seq<char>>,
) -> RequestView {
    match kind {
        EventKind::Create(CreateKind::Folder) => create_request(paths),
        EventKind::Modify(_) => modify_request(project, paths),
        _ => RequestView::Nothing,
    }
}

/// The tracker after a scan: a run that could begin takes the place of the
/// one before it; where it could not, nothing changes.
pub open spec fn after_scan(project: ProjectView, scan: RunScan) -> ProjectView {
    match run_outcome(scan) {
        Ok(run) => ProjectView { active_run: Some(run), ..project },
        Err(_) => project,
    }
}

/// A new run owes nothing to the run before it: its decoders are those of
/// the scan alone.
pub proof fn lemma_new_run_replaces_the_old(earlier: ProjectView, other: ProjectView, scan: RunScan)
    requires
        run_outcome(scan) is Ok,
    ensures
        after_scan(earlier, scan).active_run == after_scan(other, scan).active_run,
        after_scan(earlier, scan).active_run == Some(run_outcome(scan)->Ok_0),
{
}

/// The tracker after a read of all files of its run.
pub open spec fn after_read(
    project: ProjectView,
    snapshots: Seq<Result<Seq<u8>, Seq<char>>>,
) -> ProjectView {
    match project.active_run {
        Some(run) => ProjectView {
            active_run: Some(
                ActiveRunView { data_files: files_after(run.data_files, snapshots), ..run },
            ),
            ..project
        },
        None => project,
    }
}

/// The index of the first of the paths that names a run directory.
fn find_run_dir(paths: &Vec<String>) -> (found: Option<usize>)
    ensures
        match found {
            Some(i) => i < paths@.len() && first_run_dir(texts(paths@)) == Some(i as int),
            None => first_run_dir(texts(paths@)) is None,
        },
{
    let mut at: usize = 0;
    while at < paths.len()
        invariant
            at <= paths@.len(),
            forall|j: int| 0 <= j < at ==> !names_run_dir(#[trigger] texts(paths@)[j]),
        decreases paths@.len() - at,
    {
        if is_run_dir(paths[at].as_str()) {
            proof {
                lemma_first_run_dir(texts(paths@));
                assert(names_run_dir(texts(paths@)[at as int]));
            }
            return Some(at);
        }
        at = at + 1;
    }
    proof {
        lemma_first_run_dir(texts(paths@));
    }
    None
}

/// The index of the first of the paths that names a data file.
fn find_data_file(paths: &Vec<String>) -> (found: Option<usize>)
    ensures
        match found {
            Some(i) => i < paths@.len() && first_data_file(texts(paths@)) == Some(i as int),
            None => first_data_file(texts(paths@)) is None,
        },
{
    let mut at: usize = 0;
    while at < paths.len()
        invariant
            at <= paths@.len(),
            forall|j: int| 0 <= j < at ==> !names_data_file(#[trigger] texts(paths@)[j]),
        decreases paths@.len() - at,
    {
        if is_data_file(paths[at].as_str()) {
            proof {
                lemma_first_data_file(texts(paths@));
                assert(names_data_file(texts(paths@)[at as int]));
            }
            return Some(at);
        }
        at = at + 1;
    }
    proof {
        lemma_first_data_file(texts(paths@));
    }
    None
}

impl Project {
    /// The tracker of the project directory at `path`, given whether the
    /// directory exists. It begins without a run.
    pub fn new(path: &str, exists: bool) -> (made: Result<Project, ProjectError>)
        ensures
            match made {
                Ok(project) => exists && project@ == (ProjectView {
                    project_path: path@,
                    active_run: None,
                }),
                Err(error) => !exists && error@ == ProjectErrorView::ProjectDirError,
            },
    {
        if !exists {
            return Err(ProjectError::ProjectDirError);
        }
        Ok(Project { project_path: String::from_str(path), active_run: None })
    }

    /// Decides what one event asks for. The tracker itself does not change:
    /// it changes when the host hands back what it found.
    pub fn handle_events(&self, event: &Event) -> (request: Request)
        ensures
            request@ == request_for(self@, event.kind, texts(event.paths@)),
    {
        match event.kind {
            EventKind::Create(kind) => match kind {
                CreateKind::Folder => self.handle_create_dir(event),
                _ => Request::Nothing,
            },
            EventKind::Modify(_) => self.handle_modify_file(event),
            _ => Request::Nothing,
        }
    }

    /// Decides what the creation of a directory asks for: a scan of the
    /// first of the event's paths that names a run directory.
    pub fn handle_create_dir(&self, event: &Event) -> (request: Request)
        ensures
            request@ == create_request(texts(event.paths@)),
    {
        match find_run_dir(&event.paths) {
            Some(at) => {
                let directory = event.paths[at].clone();
                let data_directory = data_directory_of(event.paths[at].as_str());
                Request::ScanRunDirectory { directory, data_directory }
            },
            None => Request::Nothing,
        }
    }

    /// Decides what a modification asks for: a read of every data file of
    /// the active run, where there is a run and one of the event's paths
    /// names a data file.
    pub fn handle_modify_file(&self, event: &Event) -> (request: Request)
        ensures
            request@ == modify_request(self@, texts(event.paths@)),
    {
        match &self.active_run {
            Some(run) => match find_data_file(&event.paths) {
                Some(_) => Request::ReadDataFiles(run.file_paths()),
                None => Request::Nothing,
            },
            None => Request::Nothing,
        }
    }

    /// Takes what the host found at a directory that is named like a run.
    /// Where a run can begin there, it takes the place of the run before
    /// it, whose decoders are dropped. Where it cannot, the error says why
    /// and the tracker stays as it was.
    pub fn start_run(&mut self, scan: RunScan) -> (started: Result<(), ProjectError>)
        ensures
            final(self)@ == after_scan(old(self)@, scan),
            match started {
                Ok(_) => run_outcome(scan) is Ok,
                Err(error) => run_outcome(scan) == Err::<ActiveRunView, ProjectErrorView>(error@),
            },
    {
        match ActiveRun::new(scan) {
            Ok(run) => {
                self.active_run = Some(run);
                Ok(())
            },
            Err(error) => Err(error),
        }
    }

    /// Takes what the host read of the data files of the active run, and
    /// gives the buffer to broadcast. Without a run there is nothing to
    /// broadcast.
    pub fn read_data_from_all_files(&mut self, snapshots: Vec<Result<Vec<u8>, String>>) -> (buffer:
        Option<bytes::Bytes>)
        ensures
            final(self)@ == after_read(old(self)@, snapshot_views(snapshots@)),
            match old(self)@.active_run {
                Some(run) => buffer matches Some(bytes) && contents(bytes) == serialized(
                    messages_of(run.data_files, snapshot_views(snapshots@)),
                ),
                None => buffer is None,
            },
    {
        match &mut self.active_run {
            Some(run) => Some(run.read_data_from_all_files(snapshots)),
            None => None,
        }
    }

    /// The project directory.
    pub fn project_path(&self) -> (path: &str)
        ensures
            path@ == self@.project_path,
    {
        self.project_path.as_str()
    }

    /// The active run, if there is one.
    pub fn active_run(&self) -> (run: Option<&ActiveRun>)
        ensures
            match run {
                Some(active) => self@.active_run == Some(active@),
                None => self@.active_run is None,
            },
    {
        self.active_run.as_ref()
    }
}

} // verus!
