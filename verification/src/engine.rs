//! The pack builder: from a queue of repository sources to one
//! `Master_Library_v1.docpack` archive holding every Markdown file found.
//!
//! Building a pack alternates work outside the library (removing and
//! creating directories, running `git clone`, walking the staging tree,
//! writing the zip archive) with decisions. `PackEngine` holds the
//! decisions: it names the next action, and the caller performs it and hands
//! back what happened. The engine then tells the next action, until it
//! reports the outcome: either the success message or an error that reads
//! `Engine Failure: ` followed by what failed and why.

use vstd::prelude::*;
use crate::text::{
    chars_of, decimal, decimal_string, has_prefix, has_suffix, lemma_decimal_injective, path_extension, path_extension_of, slice_chars,
    starts_with, string_of, views,
};

verus! {

/// The directory in which the sources are cloned.
pub const STAGING_DIR: &'static str = "doccrate_staging";

/// The archive that a build produces.
pub const PACK_FILE_NAME: &'static str = "Master_Library_v1.docpack";

/// One path found while walking the staging directory.
#[derive(Debug, Clone, PartialEq, Eq)]
pub struct ScanEntry {
    /// The path, starting with the staging directory.
    pub path: String,
    /// Whether the path names a regular file.
    pub is_file: bool,
}

/// What the engine asks its caller to do next.
#[derive(Debug, PartialEq, Eq)]
pub enum EngineAction {
    /// Remove the staging directory, if it exists.
    ClearStaging { dir: String },
    /// Create the staging directory.
    CreateStaging { dir: String },
    /// Run `git clone --depth 1 <url> <dest>`.
    CloneSource { url: String, dest: String },
    /// Create the archive file and start writing a zip archive into it.
    CreateArchive { file: String },
    /// Walk the staging directory and report every path found.
    ScanStaging { dir: String },
    /// Start a new archive entry under this name.
    StartEntry { name: String },
    /// Open this file for reading.
    OpenSource { path: String },
    /// Read the whole of the open file.
    ReadSource,
    /// Write what was read into the current archive entry.
    WriteEntry,
    /// Finish the archive.
    FinishArchive,
    /// Remove the staging directory; failing to do so does not matter.
    RemoveStaging { dir: String },
    /// The build is over, with this outcome.
    Report { outcome: Result<String, String> },
}

/// What happened when the caller performed an action.
#[derive(Debug, PartialEq, Eq)]
pub enum EngineEvent {
    /// The action was carried out.
    Succeeded,
    /// The action failed; `reason` is the text of the error and its causes.
    Failed { reason: String },
    /// `git clone` ran and exited, successfully or not.
    CloneFinished { success: bool },
    /// The walk of the staging directory found these paths.
    Scanned { entries: Vec<ScanEntry> },
}

#[derive(Debug)]
enum Phase {
    ClearStaging,
    CreateStaging,
    Clone(usize),
    CreateArchive,
    Scan,
    StartEntry(usize),
    OpenSource(usize),
    ReadSource(usize),
    WriteEntry(usize),
    FinishArchive,
    RemoveStaging,
    Done(Result<String, String>),
}

/// The decisions of one pack build.
#[derive(Debug)]
pub struct PackEngine {
    sources: Vec<String>,
    phase: Phase,
    files: Vec<String>,
}

// ---------------------------------------------------------------------------
// The model
// ---------------------------------------------------------------------------

/// Where a build stands.
pub enum PhaseModel {
    ClearStaging,
    CreateStaging,
    Clone(nat),
    CreateArchive,
    Scan,
    StartEntry(nat),
    OpenSource(nat),
    ReadSource(nat),
    WriteEntry(nat),
    FinishArchive,
    RemoveStaging,
    Done(Result<Seq<char>, Seq<char>>),
}

/// A build: the queued sources, where it stands, and the Markdown files
/// chosen for the archive (known once the staging directory was walked).
pub struct EngineModel {
    pub sources: Seq<Seq<char>>,
    pub phase: PhaseModel,
    pub files: Seq<Seq<char>>,
}

/// An action, as plain values.
pub enum ActionModel {
    ClearStaging(Seq<char>),
    CreateStaging(Seq<char>),
    CloneSource(Seq<char>, Seq<char>),
    CreateArchive(Seq<char>),
    ScanStaging(Seq<char>),
    StartEntry(Seq<char>),
    OpenSource(Seq<char>),
    ReadSource,
    WriteEntry,
    FinishArchive,
    RemoveStaging(Seq<char>),
    Report(Result<Seq<char>, Seq<char>>),
}

/// An event, as plain values.
pub enum EventModel {
    Succeeded,
    Failed(Seq<char>),
    CloneFinished(bool),
    Scanned(Seq<(Seq<char>, bool)>),
}

/// The view of an outcome.
pub open spec fn outcome_view(r: Result<String, String>) -> Result<Seq<char>, Seq<char>> {
    match r {
        Ok(s) => Ok(s@),
        Err(s) => Err(s@),
    }
}

impl View for ScanEntry {
    type V = (Seq<char>, bool);

    open spec fn view(&self) -> (Seq<char>, bool) {
        (self.path@, self.is_file)
    }
}

impl View for EngineEvent {
    type V = EventModel;

    open spec fn view(&self) -> EventModel {
        match self {
            EngineEvent::Succeeded => EventModel::Succeeded,
            EngineEvent::Failed { reason } => EventModel::Failed(reason@),
            EngineEvent::CloneFinished { success } => EventModel::CloneFinished(*success),
            EngineEvent::Scanned { entries } => EventModel::Scanned(
                entries@.map_values(|e: ScanEntry| e@),
            ),
        }
    }
}

impl View for EngineAction {
    type V = ActionModel;

    open spec fn view(&self) -> ActionModel {
        match self {
            EngineAction::ClearStaging { dir } => ActionModel::ClearStaging(dir@),
            EngineAction::CreateStaging { dir } => ActionModel::CreateStaging(dir@),
            EngineAction::CloneSource { url, dest } => ActionModel::CloneSource(url@, dest@),
            EngineAction::CreateArchive { file } => ActionModel::CreateArchive(file@),
            EngineAction::ScanStaging { dir } => ActionModel::ScanStaging(dir@),
            EngineAction::StartEntry { name } => ActionModel::StartEntry(name@),
            EngineAction::OpenSource { path } => ActionModel::OpenSource(path@),
            EngineAction::ReadSource => ActionModel::ReadSource,
            EngineAction::WriteEntry => ActionModel::WriteEntry,
            EngineAction::FinishArchive => ActionModel::FinishArchive,
            EngineAction::RemoveStaging { dir } => ActionModel::RemoveStaging(dir@),
            EngineAction::Report { outcome } => ActionModel::Report(outcome_view(*outcome)),
        }
    }
}

spec fn phase_view(p: Phase) -> PhaseModel {
    match p {
        Phase::ClearStaging => PhaseModel::ClearStaging,
        Phase::CreateStaging => PhaseModel::CreateStaging,
        Phase::Clone(i) => PhaseModel::Clone(i as nat),
        Phase::CreateArchive => PhaseModel::CreateArchive,
        Phase::Scan => PhaseModel::Scan,
        Phase::StartEntry(k) => PhaseModel::StartEntry(k as nat),
        Phase::OpenSource(k) => PhaseModel::OpenSource(k as nat),
        Phase::ReadSource(k) => PhaseModel::ReadSource(k as nat),
        Phase::WriteEntry(k) => PhaseModel::WriteEntry(k as nat),
        Phase::FinishArchive => PhaseModel::FinishArchive,
        Phase::RemoveStaging => PhaseModel::RemoveStaging,
        Phase::Done(r) => PhaseModel::Done(outcome_view(r)),
    }
}

impl View for PackEngine {
    type V = EngineModel;

    closed spec fn view(&self) -> EngineModel {
        EngineModel {
            sources: views(self.sources@),
            phase: phase_view(self.phase),
            files: views(self.files@),
        }
    }
}

// ---------------------------------------------------------------------------
// What the engine decides
// ---------------------------------------------------------------------------

/// The text of an error raised while doing `context`, caused by `reason`.
pub open spec fn failure(context: Seq<char>, reason: Seq<char>) -> Seq<char> {
    "Engine Failure: "@ + context + ": "@ + reason
}

/// The text of an error that has no further context.
pub open spec fn bare_failure(reason: Seq<char>) -> Seq<char> {
    "Engine Failure: "@ + reason
}

/// The error for an empty queue.
pub open spec fn empty_queue_error() -> Seq<char> {
    bare_failure("No sources provided in the queue."@)
}

/// The directory into which the `i`-th source is cloned.
pub open spec fn repo_dir(i: nat) -> Seq<char> {
    STAGING_DIR@ + "/repo_"@ + decimal(i)
}

/// The message of a successful build that packed `count` files.
pub open spec fn success_message(count: nat) -> Seq<char> {
    "Built "@ + PACK_FILE_NAME@ + " containing "@ + decimal(count) + " Markdown files!"@
}

/// A path whose extension is `md`.
pub open spec fn is_markdown_path(p: Seq<char>) -> bool {
    path_extension(p) == Some(seq!['m', 'd'])
}

/// The paths, in the order found, of the regular files with extension `md`.
pub open spec fn selected_files(entries: Seq<(Seq<char>, bool)>) -> Seq<Seq<char>>
    decreases entries.len(),
{
    if entries.len() == 0 {
        seq![]
    } else {
        let rest = selected_files(entries.drop_last());
        let e = entries.last();
        if e.1 && is_markdown_path(e.0) {
            rest.push(e.0)
        } else {
            rest
        }
    }
}

/// The archive name of a file in the staging directory: its path relative
/// to that directory.
pub open spec fn entry_name(path: Seq<char>) -> Seq<char> {
    let prefix = STAGING_DIR@ + "/"@;
    if has_prefix(path, prefix) {
        path.subrange(prefix.len() as int, path.len() as int)
    } else {
        path
    }
}

/// The build of a queue of sources, before anything was done.
pub open spec fn initial_model(sources: Seq<Seq<char>>) -> EngineModel {
    EngineModel { sources, phase: PhaseModel::ClearStaging, files: seq![] }
}

/// `m` moved to phase `p`.
pub open spec fn at_phase(m: EngineModel, p: PhaseModel) -> EngineModel {
    EngineModel { sources: m.sources, phase: p, files: m.files }
}

/// `m` ended with an error.
pub open spec fn failed_with(m: EngineModel, msg: Seq<char>) -> EngineModel {
    at_phase(m, PhaseModel::Done(Err(msg)))
}

/// The action the engine asks for in state `m`.
pub open spec fn action_of(m: EngineModel) -> ActionModel {
    match m.phase {
        PhaseModel::ClearStaging => ActionModel::ClearStaging(STAGING_DIR@),
        PhaseModel::CreateStaging => ActionModel::CreateStaging(STAGING_DIR@),
        PhaseModel::Clone(i) => ActionModel::CloneSource(m.sources[i as int], repo_dir(i)),
        PhaseModel::CreateArchive => ActionModel::CreateArchive(PACK_FILE_NAME@),
        PhaseModel::Scan => ActionModel::ScanStaging(STAGING_DIR@),
        PhaseModel::StartEntry(k) => ActionModel::StartEntry(entry_name(m.files[k as int])),
        PhaseModel::OpenSource(k) => ActionModel::OpenSource(m.files[k as int]),
        PhaseModel::ReadSource(_) => ActionModel::ReadSource,
        PhaseModel::WriteEntry(_) => ActionModel::WriteEntry,
        PhaseModel::FinishArchive => ActionModel::FinishArchive,
        PhaseModel::RemoveStaging => ActionModel::RemoveStaging(STAGING_DIR@),
        PhaseModel::Done(r) => ActionModel::Report(r),
    }
}

/// The state after event `e` in state `m`. An event that does not answer
/// the action asked for leaves the state as it is.
pub open spec fn next_state(m: EngineModel, e: EventModel) -> EngineModel {
    match m.phase {
        PhaseModel::ClearStaging => match e {
            EventModel::Succeeded => at_phase(m, PhaseModel::CreateStaging),
            EventModel::Failed(r) => failed_with(m, failure("Failed to clear previous staging directory"@, r)),
            _ => m,
        },
        PhaseModel::CreateStaging => match e {
            EventModel::Succeeded => at_phase(m, PhaseModel::Clone(0)),
            EventModel::Failed(r) => failed_with(m, failure("Failed to create staging directory"@, r)),
            _ => m,
        },
        PhaseModel::Clone(i) => match e {
            EventModel::CloneFinished(true) => if i + 1 < m.sources.len() {
                at_phase(m, PhaseModel::Clone(i + 1))
            } else {
                at_phase(m, PhaseModel::CreateArchive)
            },
            EventModel::CloneFinished(false) => failed_with(
                m,
                bare_failure("Git clone failed for URL: "@ + m.sources[i as int]),
            ),
            EventModel::Failed(r) => failed_with(
                m,
                failure("Failed to execute native git clone for: "@ + m.sources[i as int], r),
            ),
            _ => m,
        },
        PhaseModel::CreateArchive => match e {
            EventModel::Succeeded => at_phase(m, PhaseModel::Scan),
            EventModel::Failed(r) => failed_with(m, failure("Failed to create output archive file"@, r)),
            _ => m,
        },
        PhaseModel::Scan => match e {
            EventModel::Scanned(entries) => {
                let files = selected_files(entries);
                EngineModel {
                    sources: m.sources,
                    phase: if files.len() > 0 {
                        PhaseModel::StartEntry(0)
                    } else {
                        PhaseModel::FinishArchive
                    },
                    files,
                }
            },
            _ => m,
        },
        PhaseModel::StartEntry(k) => match e {
            EventModel::Succeeded => at_phase(m, PhaseModel::OpenSource(k)),
            EventModel::Failed(r) => failed_with(m, failure("Failed to start zip entry"@, r)),
            _ => m,
        },
        PhaseModel::OpenSource(k) => match e {
            EventModel::Succeeded => at_phase(m, PhaseModel::ReadSource(k)),
            EventModel::Failed(r) => failed_with(m, failure("Failed to open markdown file"@, r)),
            _ => m,
        },
        PhaseModel::ReadSource(k) => match e {
            EventModel::Succeeded => at_phase(m, PhaseModel::WriteEntry(k)),
            EventModel::Failed(r) => failed_with(m, bare_failure(r)),
            _ => m,
        },
        PhaseModel::WriteEntry(k) => match e {
            EventModel::Succeeded => if k + 1 < m.files.len() {
                at_phase(m, PhaseModel::StartEntry(k + 1))
            } else {
                at_phase(m, PhaseModel::FinishArchive)
            },
            EventModel::Failed(r) => failed_with(m, failure("Failed to write markdown data to zip"@, r)),
            _ => m,
        },
        PhaseModel::FinishArchive => match e {
            EventModel::Succeeded => at_phase(m, PhaseModel::RemoveStaging),
            EventModel::Failed(r) => failed_with(m, failure("Failed to finalize the docpack archive"@, r)),
            _ => m,
        },
        PhaseModel::RemoveStaging => match e {
            EventModel::Succeeded | EventModel::Failed(_) => at_phase(
                m,
                PhaseModel::Done(Ok(success_message(m.files.len()))),
            ),
            _ => m,
        },
        PhaseModel::Done(_) => m,
    }
}

// ---------------------------------------------------------------------------
// The engine
// ---------------------------------------------------------------------------

/// `a`, `b` and `c` put together.
fn concat3(a: &str, b: &str, c: &str) -> (r: String)
    ensures
        r@ == a@ + b@ + c@,
{
    let mut r = String::from_str(a);
    r.append(b);
    r.append(c);
    r
}

/// The text of an error raised while doing `context`, caused by `reason`.
fn failure_text(context: &str, reason: &str) -> (r: String)
    ensures
        r@ == failure(context@, reason@),
{
    let mut r = concat3("Engine Failure: ", context, ": ");
    r.append(reason);
    r
}

/// The text of an error that has no further context.
fn bare_failure_text(reason: &str) -> (r: String)
    ensures
        r@ == bare_failure(reason@),
{
    let mut r = String::from_str("Engine Failure: ");
    r.append(reason);
    r
}

/// The directory into which the `i`-th source is cloned.
pub fn repo_dir_name(i: usize) -> (r: String)
    ensures
        r@ == repo_dir(i as nat),
{
    let n = decimal_string(i);
    concat3(STAGING_DIR, "/repo_", n.as_str())
}

/// The message of a successful build that packed `count` files.
pub fn success_text(count: usize) -> (r: String)
    ensures
        r@ == success_message(count as nat),
{
    let n = decimal_string(count);
    let mut r = concat3("Built ", PACK_FILE_NAME, " containing ");
    r.append(n.as_str());
    r.append(" Markdown files!");
    r
}

/// Whether the extension of a path is `md`.
pub fn is_markdown_file(path: &str) -> (r: bool)
    ensures
        r == is_markdown_path(path@),
{
    let p = chars_of(path);
    match path_extension_of(p.as_slice()) {
        Some(ext) => {
            let r = ext.len() == 2 && ext[0] == 'm' && ext[1] == 'd';
            assert(r == (ext@ == seq!['m', 'd'])) by {
                if ext@ == seq!['m', 'd'] {
                    assert(ext@[0] == 'm' && ext@[1] == 'd');
                }
                if r {
                    assert(ext@ =~= seq!['m', 'd']);
                }
            }
            r
        },
        None => false,
    }
}

/// The archive name of a file in the staging directory.
pub fn archive_entry_name(path: &str) -> (r: String)
    ensures
        r@ == entry_name(path@),
{
    let mut prefix = chars_of(STAGING_DIR);
    prefix.push('/');
    assert(prefix@ == STAGING_DIR@ + "/"@) by {
        reveal_strlit("/");
        assert(prefix@ =~= STAGING_DIR@ + "/"@);
    }
    let p = chars_of(path);
    if starts_with(p.as_slice(), prefix.as_slice()) {
        let rest = slice_chars(p.as_slice(), prefix.len(), p.len());
        string_of(rest.as_slice())
    } else {
        String::from_str(path)
    }
}

/// The paths of the regular Markdown files among `entries`, in order.
pub fn select_markdown_files(entries: &Vec<ScanEntry>) -> (r: Vec<String>)
    ensures
        views(r@) == selected_files(entries@.map_values(|e: ScanEntry| e@)),
{
    let ghost all = entries@.map_values(|e: ScanEntry| e@);
    let mut r: Vec<String> = Vec::new();
    let mut i: usize = 0;
    assert(all.subrange(0, 0) =~= Seq::<(Seq<char>, bool)>::empty());
    while i < entries.len()
        invariant
            i <= entries@.len(),
            all == entries@.map_values(|e: ScanEntry| e@),
            views(r@) == selected_files(all.subrange(0, i as int)),
        decreases entries@.len() - i,
    {
        let e = &entries[i];
        assert(all.subrange(0, i + 1).drop_last() =~= all.subrange(0, i as int));
        assert(all.subrange(0, i + 1).last() == e@);
        if e.is_file && is_markdown_file(e.path.as_str()) {
            let ghost before = r@;
            r.push(e.path.clone());
            assert(views(r@) =~= views(before).push(e.path@));
        }
        i = i + 1;
    }
    assert(all.subrange(0, i as int) =~= all);
    r
}

/// Starts the build of a queue of sources, or refuses an empty queue.
pub fn build_offline_pack(sources: &Vec<String>) -> (r: Result<PackEngine, String>)
    ensures
        r is Err <==> sources@.len() == 0,
        r matches Err(msg) ==> msg@ == empty_queue_error(),
        r matches Ok(engine) ==> engine@ == initial_model(views(sources@)) && model_wf(engine@),
{
    if sources.len() == 0 {
        return Err(bare_failure_text("No sources provided in the queue."));
    }
    let mut copy: Vec<String> = Vec::new();
    let mut i: usize = 0;
    while i < sources.len()
        invariant
            i <= sources@.len(),
            views(copy@) == views(sources@).subrange(0, i as int),
        decreases sources@.len() - i,
    {
        let ghost before = copy@;
        copy.push(sources[i].clone());
        assert(views(copy@) =~= views(before).push(sources@[i as int]@));
        i = i + 1;
        assert(views(copy@) =~= views(sources@).subrange(0, i as int));
    }
    assert(views(sources@).subrange(0, i as int) =~= views(sources@));
    let engine = PackEngine { sources: copy, phase: Phase::ClearStaging, files: Vec::new() };
    assert(views(engine.files@) =~= Seq::<Seq<char>>::empty());
    Ok(engine)
}

impl PackEngine {
    #[verifier::type_invariant]
    spec fn well_formed(self) -> bool {
        &&& self.sources@.len() > 0
        &&& match self.phase {
            Phase::Clone(i) => i < self.sources@.len(),
            Phase::StartEntry(k) => k < self.files@.len(),
            Phase::OpenSource(k) => k < self.files@.len(),
            Phase::ReadSource(k) => k < self.files@.len(),
            Phase::WriteEntry(k) => k < self.files@.len(),
            _ => true,
        }
    }

    /// The action the engine asks for now.
    pub fn action(&self) -> (a: EngineAction)
        ensures
            a@ == action_of(self@),
    {
        proof { use_type_invariant(self); }
        match &self.phase {
            Phase::ClearStaging => EngineAction::ClearStaging { dir: String::from_str(STAGING_DIR) },
            Phase::CreateStaging => EngineAction::CreateStaging { dir: String::from_str(STAGING_DIR) },
            Phase::Clone(i) => EngineAction::CloneSource {
                url: self.sources[*i].clone(),
                dest: repo_dir_name(*i),
            },
            Phase::CreateArchive => EngineAction::CreateArchive { file: String::from_str(PACK_FILE_NAME) },
            Phase::Scan => EngineAction::ScanStaging { dir: String::from_str(STAGING_DIR) },
            Phase::StartEntry(k) => EngineAction::StartEntry {
                name: archive_entry_name(self.files[*k].as_str()),
            },
            Phase::OpenSource(k) => EngineAction::OpenSource { path: self.files[*k].clone() },
            Phase::ReadSource(_) => EngineAction::ReadSource,
            Phase::WriteEntry(_) => EngineAction::WriteEntry,
            Phase::FinishArchive => EngineAction::FinishArchive,
            Phase::RemoveStaging => EngineAction::RemoveStaging { dir: String::from_str(STAGING_DIR) },
            Phase::Done(outcome) => EngineAction::Report {
                outcome: match outcome {
                    Ok(m) => Ok(m.clone()),
                    Err(m) => Err(m.clone()),
                },
            },
        }
    }

    /// Takes in what happened when the last action was performed.
    pub fn advance(&mut self, event: EngineEvent)
        ensures
            final(self)@ == next_state(old(self)@, event@),
            model_wf(final(self)@),
    {
        proof { use_type_invariant(&*self); }
        let n = self.sources.len();
        let count = self.files.len();
        let next: Option<Phase> = match (&self.phase, event) {
            (Phase::ClearStaging, EngineEvent::Succeeded) => Some(Phase::CreateStaging),
            (Phase::ClearStaging, EngineEvent::Failed { reason }) => Some(Phase::Done(
                Err(failure_text("Failed to clear previous staging directory", reason.as_str())),
            )),
            (Phase::CreateStaging, EngineEvent::Succeeded) => Some(Phase::Clone(0)),
            (Phase::CreateStaging, EngineEvent::Failed { reason }) => Some(Phase::Done(
                Err(failure_text("Failed to create staging directory", reason.as_str())),
            )),
            (Phase::Clone(i), EngineEvent::CloneFinished { success }) => {
                if success {
                    if *i + 1 < n {
                        Some(Phase::Clone(*i + 1))
                    } else {
                        Some(Phase::CreateArchive)
                    }
                } else {
                    let mut context = String::from_str("Git clone failed for URL: ");
                    context.append(self.sources[*i].as_str());
                    Some(Phase::Done(Err(bare_failure_text(context.as_str()))))
                }
            },
            (Phase::Clone(i), EngineEvent::Failed { reason }) => {
                let mut context = String::from_str("Failed to execute native git clone for: ");
                context.append(self.sources[*i].as_str());
                Some(Phase::Done(Err(failure_text(context.as_str(), reason.as_str()))))
            },
            (Phase::CreateArchive, EngineEvent::Succeeded) => Some(Phase::Scan),
            (Phase::CreateArchive, EngineEvent::Failed { reason }) => Some(Phase::Done(
                Err(failure_text("Failed to create output archive file", reason.as_str())),
            )),
            (Phase::Scan, EngineEvent::Scanned { entries }) => {
                let files = select_markdown_files(&entries);
                let empty = files.len() == 0;
                self.files = files;
                if empty {
                    Some(Phase::FinishArchive)
                } else {
                    Some(Phase::StartEntry(0))
                }
            },
            (Phase::StartEntry(k), EngineEvent::Succeeded) => Some(Phase::OpenSource(*k)),
            (Phase::StartEntry(_), EngineEvent::Failed { reason }) => Some(Phase::Done(
                Err(failure_text("Failed to start zip entry", reason.as_str())),
            )),
            (Phase::OpenSource(k), EngineEvent::Succeeded) => Some(Phase::ReadSource(*k)),
            (Phase::OpenSource(_), EngineEvent::Failed { reason }) => Some(Phase::Done(
                Err(failure_text("Failed to open markdown file", reason.as_str())),
            )),
            (Phase::ReadSource(k), EngineEvent::Succeeded) => Some(Phase::WriteEntry(*k)),
            (Phase::ReadSource(_), EngineEvent::Failed { reason }) => Some(Phase::Done(
                Err(bare_failure_text(reason.as_str())),
            )),
            (Phase::WriteEntry(k), EngineEvent::Succeeded) => {
                if *k + 1 < count {
                    Some(Phase::StartEntry(*k + 1))
                } else {
                    Some(Phase::FinishArchive)
                }
            },
            (Phase::WriteEntry(_), EngineEvent::Failed { reason }) => Some(Phase::Done(
                Err(failure_text("Failed to write markdown data to zip", reason.as_str())),
            )),
            (Phase::FinishArchive, EngineEvent::Succeeded) => Some(Phase::RemoveStaging),
            (Phase::FinishArchive, EngineEvent::Failed { reason }) => Some(Phase::Done(
                Err(failure_text("Failed to finalize the docpack archive", reason.as_str())),
            )),
            (Phase::RemoveStaging, EngineEvent::Succeeded)
            | (Phase::RemoveStaging, EngineEvent::Failed { .. }) => Some(Phase::Done(
                Ok(success_text(self.files.len())),
            )),
            _ => None,
        };
        if let Some(p) = next {
            self.phase = p;
        }
        proof { use_type_invariant(&*self); }
    }
}

// ---------------------------------------------------------------------------
// Laws of the engine
// ---------------------------------------------------------------------------

/// The shape every state of the engine has: a non-empty queue, and a
/// position within the queue or within the chosen files.
pub open spec fn model_wf(m: EngineModel) -> bool {
    &&& m.sources.len() > 0
    &&& match m.phase {
        PhaseModel::Clone(i) => i < m.sources.len(),
        PhaseModel::StartEntry(k) => k < m.files.len(),
        PhaseModel::OpenSource(k) => k < m.files.len(),
        PhaseModel::ReadSource(k) => k < m.files.len(),
        PhaseModel::WriteEntry(k) => k < m.files.len(),
        _ => true,
    }
}

/// The state after a sequence of events.
pub open spec fn run(m: EngineModel, events: Seq<EventModel>) -> EngineModel
    decreases events.len(),
{
    if events.len() == 0 {
        m
    } else {
        run(next_state(m, events[0]), events.drop_first())
    }
}

/// `n` times the same event.
pub open spec fn repeated(e: EventModel, n: nat) -> Seq<EventModel> {
    Seq::new(n, |i: int| e)
}

/// The events of a build in which every action succeeds and the walk of
/// the staging directory finds `entries`.
pub open spec fn successful_events(sources: nat, entries: Seq<(Seq<char>, bool)>) -> Seq<EventModel> {
    seq![EventModel::Succeeded, EventModel::Succeeded]
        + repeated(EventModel::CloneFinished(true), sources)
        + seq![EventModel::Succeeded, EventModel::Scanned(entries)]
        + repeated(EventModel::Succeeded, 4 * selected_files(entries).len())
        + seq![EventModel::Succeeded, EventModel::Succeeded]
}

/// How far a build is from its end: first the steps before the staging
/// directory is walked, then the steps after.
pub open spec fn steps_left(m: EngineModel) -> (nat, nat) {
    let n = m.sources.len();
    let l = m.files.len();
    match m.phase {
        PhaseModel::ClearStaging => ((n + 4) as nat, 0),
        PhaseModel::CreateStaging => ((n + 3) as nat, 0),
        PhaseModel::Clone(i) => ((n + 2 - i) as nat, 0),
        PhaseModel::CreateArchive => (2, 0),
        PhaseModel::Scan => (1, 0),
        PhaseModel::StartEntry(k) => (0, (4 * (l - k - 1) + 6) as nat),
        PhaseModel::OpenSource(k) => (0, (4 * (l - k - 1) + 5) as nat),
        PhaseModel::ReadSource(k) => (0, (4 * (l - k - 1) + 4) as nat),
        PhaseModel::WriteEntry(k) => (0, (4 * (l - k - 1) + 3) as nat),
        PhaseModel::FinishArchive => (0, 2),
        PhaseModel::RemoveStaging => (0, 1),
        PhaseModel::Done(_) => (0, 0),
    }
}

/// `a` comes before `b` lexicographically.
pub open spec fn lex_lt(a: (nat, nat), b: (nat, nat)) -> bool {
    a.0 < b.0 || (a.0 == b.0 && a.1 < b.1)
}

/// Law: a new build starts in a well-formed state, and every event keeps
/// the state well formed.
pub proof fn law_wf_preserved(m: EngineModel, e: EventModel)
    requires
        model_wf(m),
    ensures
        model_wf(next_state(m, e)),
{
}

/// Law: an event either leaves the build where it is (it did not answer
/// the action) or brings it strictly closer to its end, so every build
/// whose events answer its actions ends.
pub proof fn law_progress(m: EngineModel, e: EventModel)
    requires
        model_wf(m),
    ensures
        next_state(m, e) == m || lex_lt(steps_left(next_state(m, e)), steps_left(m)),
{
}

/// Law: once the outcome is known it is reported, and no event changes it.
pub proof fn law_outcome_is_final(m: EngineModel, e: EventModel)
    requires
        m.phase is Done,
    ensures
        next_state(m, e) == m,
        action_of(m) == ActionModel::Report(m.phase->Done_0),
{
}

/// Law: when a step that can fail fails, the build ends at once with an
/// error that starts with `Engine Failure: ` and ends with the reason.
pub proof fn law_failure_is_reported(m: EngineModel, reason: Seq<char>)
    requires
        !(m.phase is Scan || m.phase is RemoveStaging || m.phase is Done),
    ensures
        next_state(m, EventModel::Failed(reason)).phase matches PhaseModel::Done(Err(msg))
            && has_prefix(msg, "Engine Failure: "@) && has_suffix(msg, reason),
        next_state(m, EventModel::Failed(reason)).sources == m.sources,
        next_state(m, EventModel::Failed(reason)).files == m.files,
{
    let msg = next_state(m, EventModel::Failed(reason)).phase->Done_0->Err_0;
    let head = "Engine Failure: "@;
    assert(msg.subrange(0, head.len() as int) =~= head);
    assert(msg.subrange(msg.len() - reason.len(), msg.len() as int) =~= reason);
}

/// Running a concatenation of event sequences runs one after the other.
proof fn lemma_run_concat(m: EngineModel, a: Seq<EventModel>, b: Seq<EventModel>)
    ensures
        run(m, a + b) == run(run(m, a), b),
    decreases a.len(),
{
    if a.len() > 0 {
        assert((a + b).drop_first() =~= a.drop_first() + b);
        assert((a + b)[0] == a[0]);
        lemma_run_concat(next_state(m, a[0]), a.drop_first(), b);
    } else {
        assert(a + b =~= b);
    }
}

/// The clones of a build, from the `i`-th on, all succeed.
proof fn lemma_clones_succeed(m: EngineModel, i: nat)
    requires
        i < m.sources.len(),
        m.phase == PhaseModel::Clone(i),
    ensures
        run(m, repeated(EventModel::CloneFinished(true), (m.sources.len() - i) as nat))
            == at_phase(m, PhaseModel::CreateArchive),
    decreases m.sources.len() - i,
{
    reveal_with_fuel(run, 2);
    let k = (m.sources.len() - i) as nat;
    let evs = repeated(EventModel::CloneFinished(true), k);
    assert(evs[0] == EventModel::CloneFinished(true));
    let m2 = next_state(m, evs[0]);
    if i + 1 < m.sources.len() {
        assert(evs.drop_first() =~= repeated(EventModel::CloneFinished(true), (m.sources.len() - (i + 1)) as nat));
        lemma_clones_succeed(m2, i + 1);
    } else {
        assert(evs.drop_first() =~= Seq::<EventModel>::empty());
    }
}

/// The files of a build, from the `k`-th on, are all packed.
proof fn lemma_files_packed(m: EngineModel, k: nat)
    requires
        k < m.files.len(),
        m.phase == PhaseModel::StartEntry(k),
    ensures
        run(m, repeated(EventModel::Succeeded, (4 * (m.files.len() - k)) as nat))
            == at_phase(m, PhaseModel::FinishArchive),
    decreases m.files.len() - k,
{
    let evs = repeated(EventModel::Succeeded, (4 * (m.files.len() - k)) as nat);
    let four = repeated(EventModel::Succeeded, 4);
    let rest = repeated(EventModel::Succeeded, (4 * (m.files.len() - k - 1)) as nat);
    assert(evs =~= four + rest);
    lemma_run_concat(m, four, rest);
    reveal_with_fuel(run, 5);
    assert(four.drop_first().drop_first().drop_first().drop_first() =~= Seq::<EventModel>::empty());
    let m4 = run(m, four);
    if k + 1 < m.files.len() {
        assert(m4 == at_phase(m, PhaseModel::StartEntry(k + 1)));
        lemma_files_packed(m4, k + 1);
    } else {
        assert(m4 == at_phase(m, PhaseModel::FinishArchive));
        assert(rest =~= Seq::<EventModel>::empty());
    }
}

/// Law: a build in which every action succeeds ends with the message
/// `Built Master_Library_v1.docpack containing N Markdown files!`, where N
/// is the number of regular Markdown files the walk of the staging
/// directory found.
pub proof fn law_successful_build(sources: Seq<Seq<char>>, entries: Seq<(Seq<char>, bool)>)
    requires
        sources.len() > 0,
    ensures
        run(initial_model(sources), successful_events(sources.len(), entries)).phase
            == PhaseModel::Done(Ok(success_message(selected_files(entries).len()))),
{
    let m0 = initial_model(sources);
    let files = selected_files(entries);
    let a = seq![EventModel::Succeeded, EventModel::Succeeded];
    let b = repeated(EventModel::CloneFinished(true), sources.len());
    let c = seq![EventModel::Succeeded, EventModel::Scanned(entries)];
    let d = repeated(EventModel::Succeeded, 4 * files.len());
    let e = seq![EventModel::Succeeded, EventModel::Succeeded];
    lemma_run_concat(m0, a + b + c + d, e);
    lemma_run_concat(m0, a + b + c, d);
    lemma_run_concat(m0, a + b, c);
    lemma_run_concat(m0, a, b);
    reveal_with_fuel(run, 3);
    assert(a.drop_first().drop_first() =~= Seq::<EventModel>::empty());
    let m1 = run(m0, a);
    assert(m1 == at_phase(m0, PhaseModel::Clone(0)));
    lemma_clones_succeed(m1, 0);
    let m2 = run(m1, b);
    assert(c.drop_first().drop_first() =~= Seq::<EventModel>::empty());
    let m3 = run(m2, c);
    assert(m3.files == files);
    if files.len() > 0 {
        assert(m3.phase == PhaseModel::StartEntry(0));
        lemma_files_packed(m3, 0);
    } else {
        assert(m3.phase == PhaseModel::FinishArchive);
        assert(d =~= Seq::<EventModel>::empty());
    }
    let m4 = run(m3, d);
    assert(m4 == at_phase(m3, PhaseModel::FinishArchive));
    assert(e.drop_first().drop_first() =~= Seq::<EventModel>::empty());
    assert(a + b + c + d + e =~= successful_events(sources.len(), entries));
}

/// Law: every source of a queue is cloned into a directory of its own.
pub proof fn law_clone_dirs_distinct(i: nat, j: nat)
    requires
        i != j,
    ensures
        repo_dir(i) != repo_dir(j),
{
    let head = STAGING_DIR@ + "/repo_"@;
    if repo_dir(i) == repo_dir(j) {
        assert(repo_dir(i).subrange(head.len() as int, repo_dir(i).len() as int) =~= decimal(i));
        assert(repo_dir(j).subrange(head.len() as int, repo_dir(j).len() as int) =~= decimal(j));
        lemma_decimal_injective(i, j);
    }
}

/// Law: a failed clone ends the build. Whichever source is being cloned,
/// the first or a later one, a clone that does not succeed stops the build
/// with the error that names that source, and the engine reports it.
pub proof fn law_failed_clone_stops_build(m: EngineModel, i: nat)
    requires
        model_wf(m),
        m.phase == PhaseModel::Clone(i),
    ensures
        next_state(m, EventModel::CloneFinished(false)).phase == PhaseModel::Done(
            Err("Engine Failure: Git clone failed for URL: "@ + m.sources[i as int]),
        ),
        action_of(next_state(m, EventModel::CloneFinished(false))) == ActionModel::Report(
            Err("Engine Failure: Git clone failed for URL: "@ + m.sources[i as int]),
        ),
{
    reveal_strlit("Engine Failure: ");
    reveal_strlit("Git clone failed for URL: ");
    reveal_strlit("Engine Failure: Git clone failed for URL: ");
    assert(bare_failure("Git clone failed for URL: "@ + m.sources[i as int])
        =~= "Engine Failure: Git clone failed for URL: "@ + m.sources[i as int]);
}

/// Law: the build moves on from cloning a source, to the next source or to
/// creating the archive, only when that clone succeeded.
pub proof fn law_clones_advance_only_on_success(m: EngineModel, e: EventModel)
    requires
        model_wf(m),
        m.phase is Clone,
        next_state(m, e).phase != m.phase,
        next_state(m, e).phase is Clone || next_state(m, e).phase is CreateArchive,
    ensures
        e == EventModel::CloneFinished(true),
{
}

/// Law: the walk's result picks every regular file whose extension is
/// `md`: such a path is among the files packed.
pub proof fn law_every_markdown_file_is_packed(entries: Seq<(Seq<char>, bool)>, k: int)
    requires
        0 <= k < entries.len(),
        entries[k].1,
        path_extension(entries[k].0) == Some(seq!['m', 'd']),
    ensures
        selected_files(entries).contains(entries[k].0),
    decreases entries.len(),
{
    let rest = entries.drop_last();
    let found = selected_files(entries);
    if k == entries.len() - 1 {
        assert(found.last() == entries[k].0);
    } else {
        assert(rest[k] == entries[k]);
        law_every_markdown_file_is_packed(rest, k);
        let j = choose|j: int| 0 <= j < selected_files(rest).len() && selected_files(rest)[j] == entries[k].0;
        assert(found[j] == entries[k].0);
    }
}

/// Law: only regular files whose extension is `md` are packed.
pub proof fn law_only_markdown_files_are_packed(entries: Seq<(Seq<char>, bool)>, k: int)
    requires
        0 <= k < selected_files(entries).len(),
    ensures
        exists|j: int| {
            &&& 0 <= j < entries.len()
            &&& #[trigger] entries[j].0 == selected_files(entries)[k]
            &&& entries[j].1
            &&& path_extension(entries[j].0) == Some(seq!['m', 'd'])
        },
    decreases entries.len(),
{
    let rest = entries.drop_last();
    let found = selected_files(entries);
    let last = entries.len() - 1;
    if k == selected_files(rest).len() {
        assert(entries[last].0 == found[k]);
    } else {
        assert(found[k] == selected_files(rest)[k]);
        law_only_markdown_files_are_packed(rest, k);
        let j = choose|j: int| {
            &&& 0 <= j < rest.len()
            &&& #[trigger] rest[j].0 == selected_files(rest)[k]
            &&& rest[j].1
            &&& path_extension(rest[j].0) == Some(seq!['m', 'd'])
        };
        assert(rest[j] == entries[j]);
        assert(entries[j].0 == found[k]);
    }
}

/// Law: a file of the staging directory is packed under its path relative
/// to that directory.
pub proof fn law_entry_name_is_relative(rest: Seq<char>)
    ensures
        entry_name(STAGING_DIR@ + "/"@ + rest) == rest,
{
    let prefix = STAGING_DIR@ + "/"@;
    let path = prefix + rest;
    assert(path == STAGING_DIR@ + "/"@ + rest);
    assert(path.subrange(0, prefix.len() as int) =~= prefix);
    assert(path.subrange(prefix.len() as int, path.len() as int) =~= rest);
}

} // verus!
