//! The sync engine: which files are translated anew, and what is recorded.
//!
//! The engine works through the files to translate one by one. It performs
//! no input or output. It names the next thing to do as an `Action`; the
//! driver does it and answers with an `Event`; `step` takes the event in and
//! names the action after it. A file whose hash is already recorded under
//! its path is passed over. An empty file gets an empty output, without a
//! call of the backend; every other file is translated. Either way an entry
//! with the hash of the file's bytes is added to the metadata, which is
//! handed out to be written before the next file is touched. An empty file
//! counts as up to date, a translated one as newly translated.

use crate::hash::{content_hash, content_hash_of};
use crate::meta::{has_record, FileRecord, MetaRecord, TranslationMeta};
use crate::paths::{mirror_of, mirror_path, parent_dir, parent_of};
use crate::text::texts;
use vstd::prelude::*;
use vstd::string::*;

verus! {

/// The request that goes before the content of a file that is sent to the
/// translation backend.
pub open spec fn prompt_of(content: Seq<char>) -> Seq<char> {
    "translate the content to English: please just reply with the translated content\n"@
        + content
}

/// The text to send to the translation backend for a file that holds
/// `content`.
pub fn translation_prompt(content: &str) -> (prompt: String)
    ensures
        prompt@ == prompt_of(content@),
{
    let mut prompt: String =
        "translate the content to English: please just reply with the translated content\n".to_owned();
    prompt.append(content);
    prompt
}

/// The answer of the translation backend to take: the first of `replies`,
/// where there is one and it holds a message.
pub fn first_reply(replies: &Vec<Option<String>>) -> (reply: Option<String>)
    ensures
        reply == if replies@.len() > 0 {
            replies@[0]
        } else {
            None
        },
{
    if replies.len() == 0 {
        None
    } else {
        replies[0].clone()
    }
}

/// The counts of a run: those of the files done with so far, and at the
/// end of the run those of all files.
#[derive(Clone, Copy, Debug, PartialEq, Eq)]
pub struct Summary {
    /// The number of files that the run goes through.
    pub total: usize,
    /// How many of the files done with were translated in this run.
    pub newly_translated: usize,
    /// How many of the files done with were up to date, the empty ones
    /// among them.
    pub up_to_date: usize,
}

/// What the driver is asked to do.
#[derive(Debug, PartialEq, Eq)]
pub enum Action {
    /// Read the bytes of the file at `path`; answer with `Event::Bytes`.
    ReadBytes { path: String },
    /// Make sure that `directory` exists, then read the file at `path` as
    /// text; answer with `Event::Text`.
    ReadText { path: String, directory: String },
    /// Write an empty file at `output_path`, the output of the empty file
    /// at `path`; answer with `Event::Written`.
    WriteEmpty { path: String, output_path: String },
    /// Send `prompt`, which holds the text of the file at `path`, to the
    /// translation backend and write its reply to `output_path`; answer
    /// with `Event::Translated`. Where the backend fails, the run ends here.
    Translate { path: String, prompt: String, output_path: String },
    /// Write `meta` to the metadata file; answer with `Event::Persisted`,
    /// whether or not the write went through.
    Persist { meta: TranslationMeta },
    /// Report `summary`; the run is over.
    Finish { summary: Summary },
}

/// What an `Action` holds.
pub enum ActionState {
    ReadBytes { path: Seq<char> },
    ReadText { path: Seq<char>, directory: Seq<char> },
    WriteEmpty { path: Seq<char>, output_path: Seq<char> },
    Translate { path: Seq<char>, prompt: Seq<char>, output_path: Seq<char> },
    Persist { meta: MetaRecord },
    Finish { summary: Summary },
}

impl View for Action {
    type V = ActionState;

    open spec fn view(&self) -> ActionState {
        match self {
            Action::ReadBytes { path } => ActionState::ReadBytes { path: path@ },
            Action::ReadText { path, directory } => ActionState::ReadText {
                path: path@,
                directory: directory@,
            },
            Action::WriteEmpty { path, output_path } => ActionState::WriteEmpty {
                path: path@,
                output_path: output_path@,
            },
            Action::Translate { path, prompt, output_path } => ActionState::Translate {
                path: path@,
                prompt: prompt@,
                output_path: output_path@,
            },
            Action::Persist { meta } => ActionState::Persist { meta: meta@ },
            Action::Finish { summary } => ActionState::Finish { summary: *summary },
        }
    }
}

/// What the driver answers.
#[derive(Clone, Debug, PartialEq, Eq)]
pub enum Event {
    /// The bytes of the file that `Action::ReadBytes` named.
    Bytes(Vec<u8>),
    /// The text of the file that `Action::ReadText` named.
    Text(String),
    /// The empty output file was written, at the time `now`, in seconds
    /// since the epoch.
    Written { now: u64 },
    /// The translation was written to the output file, at the time `now`,
    /// in seconds since the epoch.
    Translated { now: u64 },
    /// The write of the metadata was tried.
    Persisted,
}

/// What an `Event` holds.
pub enum EventState {
    Bytes(Seq<u8>),
    Text(Seq<char>),
    Written { now: u64 },
    Translated { now: u64 },
    Persisted,
}

impl View for Event {
    type V = EventState;

    open spec fn view(&self) -> EventState {
        match self {
            Event::Bytes(bytes) => EventState::Bytes(bytes@),
            Event::Text(text) => EventState::Text(text@),
            Event::Written { now } => EventState::Written { now: *now },
            Event::Translated { now } => EventState::Translated { now: *now },
            Event::Persisted => EventState::Persisted,
        }
    }
}

/// Why the engine did not take an event in.
#[derive(Clone, Copy, Debug, PartialEq, Eq)]
pub enum SyncError {
    /// The event does not answer the action that the engine waits on.
    UnexpectedEvent,
}

/// What the engine waits for.
#[derive(Debug, PartialEq, Eq)]
pub enum Stage {
    /// The bytes of the current file.
    Hash,
    /// The text of the current file, whose bytes hash to `hash`.
    Load { hash: String },
    /// The writing of the empty output of the current file, which is empty
    /// and whose bytes hash to `hash`.
    Blank { hash: String },
    /// The translation of the current file, which holds `text` and whose
    /// bytes hash to `hash`.
    Translate { hash: String, text: String },
    /// The writing of the metadata, after the entry of the current file
    /// was added: `translated` tells whether the file was translated or,
    /// being empty, written as it is.
    Persist { translated: bool },
    /// The writing of the metadata, after the last file.
    Close,
    /// Nothing: the run is over.
    Done,
}

/// What a `Stage` holds.
pub enum StageState {
    Hash,
    Load { hash: Seq<char> },
    Blank { hash: Seq<char> },
    Translate { hash: Seq<char>, text: Seq<char> },
    Persist { translated: bool },
    Close,
    Done,
}

impl View for Stage {
    type V = StageState;

    open spec fn view(&self) -> StageState {
        match self {
            Stage::Hash => StageState::Hash,
            Stage::Load { hash } => StageState::Load { hash: hash@ },
            Stage::Blank { hash } => StageState::Blank { hash: hash@ },
            Stage::Translate { hash, text } => StageState::Translate { hash: hash@, text: text@ },
            Stage::Persist { translated } => StageState::Persist { translated: *translated },
            Stage::Close => StageState::Close,
            Stage::Done => StageState::Done,
        }
    }
}

/// The state of a run.
pub struct EngineState {
    /// The metadata as it stands.
    pub meta: MetaRecord,
    /// The directory of the checkout.
    pub source_root: Seq<char>,
    /// The directory of the mirror.
    pub output_root: Seq<char>,
    /// The files to translate.
    pub files: Seq<Seq<char>>,
    /// The index of the current file; the number of files when none is left.
    pub cursor: nat,
    /// What the engine waits for.
    pub stage: StageState,
    /// How many of the files before the current one were up to date or
    /// empty.
    pub up_to_date: nat,
}

impl EngineState {
    /// The state is one that a run can be in.
    pub open spec fn well_formed(self) -> bool {
        &&& self.files.len() <= usize::MAX
        &&& self.up_to_date <= self.cursor <= self.files.len()
        &&& (self.stage is Close || self.stage is Done) <==> self.cursor == self.files.len()
    }

    /// The current file.
    pub open spec fn current(self) -> Seq<char> {
        self.files[self.cursor as int]
    }

    /// The place of the current file in the mirror.
    pub open spec fn output_path(self) -> Seq<char> {
        mirror_of(self.current(), self.source_root, self.output_root)
    }

    /// The state once the current file is done with.
    pub open spec fn advanced(self) -> EngineState {
        EngineState {
            cursor: self.cursor + 1,
            stage: if self.cursor + 1 < self.files.len() {
                StageState::Hash
            } else {
                StageState::Close
            },
            ..self
        }
    }

    /// The counts of the run as it stands. Of the files before the current
    /// one, those that were not up to date were translated.
    pub open spec fn summary(self) -> Summary {
        Summary {
            total: self.files.len() as usize,
            newly_translated: (self.cursor - self.up_to_date) as usize,
            up_to_date: self.up_to_date as usize,
        }
    }

    /// The state once `entry` is added to the metadata, which is then to
    /// be written.
    pub open spec fn recorded(self, entry: FileRecord, translated: bool) -> EngineState {
        EngineState {
            meta: MetaRecord { commit: self.meta.commit, files: self.meta.files.push(entry) },
            stage: StageState::Persist { translated },
            ..self
        }
    }
}

/// The state in which a run over `files` begins, with the metadata `meta`
/// of the run before and the checkout standing at `commit`.
pub open spec fn start_state(
    meta: MetaRecord,
    commit: Seq<char>,
    files: Seq<Seq<char>>,
    source_root: Seq<char>,
    output_root: Seq<char>,
) -> EngineState {
    EngineState {
        meta: MetaRecord { commit, files: meta.files },
        source_root,
        output_root,
        files,
        cursor: 0,
        stage: if files.len() > 0 {
            StageState::Hash
        } else {
            StageState::Close
        },
        up_to_date: 0,
    }
}

/// What the engine asks for in the state `s`.
pub open spec fn pending_action(s: EngineState) -> ActionState {
    match s.stage {
        StageState::Hash => ActionState::ReadBytes { path: s.current() },
        StageState::Load { hash } => ActionState::ReadText {
            path: s.current(),
            directory: parent_of(s.output_path()),
        },
        StageState::Blank { hash } => ActionState::WriteEmpty {
            path: s.current(),
            output_path: s.output_path(),
        },
        StageState::Translate { hash, text } => ActionState::Translate {
            path: s.current(),
            prompt: prompt_of(text),
            output_path: s.output_path(),
        },
        StageState::Persist { translated } => ActionState::Persist { meta: s.meta },
        StageState::Close => ActionState::Persist { meta: s.meta },
        StageState::Done => ActionState::Finish { summary: s.summary() },
    }
}

/// The state after the event `e` in the state `s`; `None` where `e` does
/// not answer what the engine asked for.
pub open spec fn next_state(s: EngineState, e: EventState) -> Option<EngineState> {
    match (s.stage, e) {
        (StageState::Hash, EventState::Bytes(bytes)) => {
            let hash = content_hash_of(bytes);
            if has_record(s.meta.files, s.current(), hash) {
                Some(EngineState { up_to_date: s.up_to_date + 1, ..s }.advanced())
            } else {
                Some(EngineState { stage: StageState::Load { hash }, ..s })
            }
        },
        (StageState::Load { hash }, EventState::Text(text)) => {
            if text.len() == 0 {
                Some(EngineState { stage: StageState::Blank { hash }, ..s })
            } else {
                Some(EngineState { stage: StageState::Translate { hash, text }, ..s })
            }
        },
        (StageState::Blank { hash }, EventState::Written { now }) => {
            let entry = FileRecord { path: s.current(), hash, translation_timestamp: now };
            Some(s.recorded(entry, false))
        },
        (StageState::Translate { hash, text }, EventState::Translated { now }) => {
            let entry = FileRecord { path: s.current(), hash, translation_timestamp: now };
            Some(s.recorded(entry, true))
        },
        (StageState::Persist { translated }, EventState::Persisted) => {
            if translated {
                Some(s.advanced())
            } else {
                Some(EngineState { up_to_date: s.up_to_date + 1, ..s }.advanced())
            }
        },
        (StageState::Close, EventState::Persisted) => {
            Some(EngineState { stage: StageState::Done, ..s })
        },
        _ => None,
    }
}

/// Every event that is taken in leaves the state well formed, and the
/// files and the two roots as they were.
pub proof fn law_step_keeps_well_formed(s: EngineState, e: EventState)
    requires
        s.well_formed(),
    ensures
        next_state(s, e) matches Some(next) ==> next.well_formed() && next.files == s.files
            && next.source_root == s.source_root && next.output_root == s.output_root,
{
}

/// A run of the sync engine.
#[derive(Debug)]
pub struct SyncEngine {
    meta: TranslationMeta,
    source_root: String,
    output_root: String,
    files: Vec<String>,
    cursor: usize,
    stage: Stage,
    up_to_date: usize,
}

impl View for SyncEngine {
    type V = EngineState;

    closed spec fn view(&self) -> EngineState {
        EngineState {
            meta: self.meta@,
            source_root: self.source_root@,
            output_root: self.output_root@,
            files: texts(self.files@),
            cursor: self.cursor as nat,
            stage: self.stage@,
            up_to_date: self.up_to_date as nat,
        }
    }
}

impl SyncEngine {
    /// Begins a run over the files `files` of the checkout under
    /// `source_root`, which stands at `commit`, with the metadata `meta` that
    /// the run before left. The mirror lies under `output_root`.
    pub fn new(
        meta: TranslationMeta,
        commit: String,
        files: Vec<String>,
        source_root: String,
        output_root: String,
    ) -> (engine: Self)
        ensures
            engine@ == start_state(meta@, commit@, texts(files@), source_root@, output_root@),
            engine@.well_formed(),
    {
        let mut meta = meta;
        meta.set_commit(commit);
        let stage = if files.len() > 0 {
            Stage::Hash
        } else {
            Stage::Close
        };
        SyncEngine { meta, source_root, output_root, files, cursor: 0, stage, up_to_date: 0 }
    }

    /// The metadata as it stands.
    pub fn meta(&self) -> (meta: &TranslationMeta)
        ensures
            meta@ == self@.meta,
    {
        &self.meta
    }

    /// What the engine waits for.
    pub fn stage(&self) -> (stage: &Stage)
        ensures
            stage@ == self@.stage,
    {
        &self.stage
    }

    /// Whether the run is over.
    pub fn is_finished(&self) -> (over: bool)
        ensures
            over == (self@.stage is Done),
    {
        match &self.stage {
            Stage::Done => true,
            _ => false,
        }
    }

    /// The counts of the run as it stands.
    pub fn summary(&self) -> (summary: Summary)
        requires
            self@.well_formed(),
        ensures
            summary == self@.summary(),
    {
        Summary {
            total: self.files.len(),
            newly_translated: self.cursor - self.up_to_date,
            up_to_date: self.up_to_date,
        }
    }

    fn output_path(&self) -> (path: String)
        requires
            self@.well_formed(),
            self@.cursor < self@.files.len(),
        ensures
            path@ == self@.output_path(),
    {
        mirror_path(
            self.files[self.cursor].as_str(),
            self.source_root.as_str(),
            self.output_root.as_str(),
        )
    }

    fn advance(&mut self)
        requires
            old(self)@.well_formed(),
            old(self)@.cursor < old(self)@.files.len(),
        ensures
            final(self)@ == old(self)@.advanced(),
    {
        self.cursor = self.cursor + 1;
        self.stage = if self.cursor < self.files.len() {
            Stage::Hash
        } else {
            Stage::Close
        };
    }

    /// What the engine asks for now.
    pub fn pending(&self) -> (action: Action)
        requires
            self@.well_formed(),
        ensures
            action@ == pending_action(self@),
    {
        match &self.stage {
            Stage::Hash => Action::ReadBytes { path: self.files[self.cursor].clone() },
            Stage::Load { hash } => {
                let output = self.output_path();
                Action::ReadText {
                    path: self.files[self.cursor].clone(),
                    directory: parent_dir(output.as_str()),
                }
            },
            Stage::Blank { hash } => Action::WriteEmpty {
                path: self.files[self.cursor].clone(),
                output_path: self.output_path(),
            },
            Stage::Translate { hash, text } => Action::Translate {
                path: self.files[self.cursor].clone(),
                prompt: translation_prompt(text.as_str()),
                output_path: self.output_path(),
            },
            Stage::Persist { translated } => Action::Persist { meta: self.meta.clone() },
            Stage::Close => Action::Persist { meta: self.meta.clone() },
            Stage::Done => Action::Finish { summary: self.summary() },
        }
    }

    /// Takes in the driver's answer to the pending action and names the
    /// action after it. An event that does not answer the pending action
    /// is refused, and the engine stays as it is.
    pub fn step(&mut self, event: Event) -> (result: Result<Action, SyncError>)
        requires
            old(self)@.well_formed(),
        ensures
            final(self)@.well_formed(),
            match next_state(old(self)@, event@) {
                Some(next) => final(self)@ == next && (result matches Ok(action) && action@
                    == pending_action(next)),
                None => final(self)@ == old(self)@ && result == Err::<Action, SyncError>(
                    SyncError::UnexpectedEvent,
                ),
            },
    {
        match event {
            Event::Bytes(bytes) => {
                match &self.stage {
                    Stage::Hash => {},
                    _ => {
                        return Err(SyncError::UnexpectedEvent);
                    },
                }
                let hash = content_hash(bytes.as_slice());
                if self.meta.is_translated(self.files[self.cursor].as_str(), hash.as_str()) {
                    self.advance();
                    self.up_to_date = self.up_to_date + 1;
                } else {
                    self.stage = Stage::Load { hash };
                }
            },
            Event::Text(text) => {
                let hash = match &self.stage {
                    Stage::Load { hash } => hash.clone(),
                    _ => {
                        return Err(SyncError::UnexpectedEvent);
                    },
                };
                if text.as_str().is_empty() {
                    self.stage = Stage::Blank { hash };
                } else {
                    self.stage = Stage::Translate { hash, text };
                }
            },
            Event::Written { now } => {
                let hash = match &self.stage {
                    Stage::Blank { hash } => hash.clone(),
                    _ => {
                        return Err(SyncError::UnexpectedEvent);
                    },
                };
                let path = self.files[self.cursor].clone();
                self.meta.record(path, hash, now);
                self.stage = Stage::Persist { translated: false };
            },
            Event::Translated { now } => {
                let hash = match &self.stage {
                    Stage::Translate { hash, text } => hash.clone(),
                    _ => {
                        return Err(SyncError::UnexpectedEvent);
                    },
                };
                let path = self.files[self.cursor].clone();
                self.meta.record(path, hash, now);
                self.stage = Stage::Persist { translated: true };
            },
            Event::Persisted => {
                match &self.stage {
                    Stage::Persist { translated } => {
                        let translated: bool = *translated;
                        self.advance();
                        if !translated {
                            self.up_to_date = self.up_to_date + 1;
                        }
                    },
                    Stage::Close => {
                        self.stage = Stage::Done;
                    },
                    _ => {
                        return Err(SyncError::UnexpectedEvent);
                    },
                }
            },
        }
        Ok(self.pending())
    }
}

} // verus!
