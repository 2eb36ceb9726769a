use autodocs::filter::Filter;
use autodocs::hash::content_hash;
use autodocs::meta::{FileEntry, TranslationMeta};
use autodocs::paths::{copy_job, copy_jobs, layout, CopyJob};
use autodocs::sync::{
    first_reply, translation_prompt, Action, Event, Stage, Summary, SyncEngine, SyncError,
};
use autodocs::walk::{DirEntry, TreeWalker};
use std::collections::BTreeMap;

const PROMPT: &str =
    "translate the content to English: please just reply with the translated content\n";

/// A file system and a backend held in memory.
struct Fake {
    files: BTreeMap<String, Vec<u8>>,
    written: BTreeMap<String, Vec<u8>>,
    made: Vec<String>,
    disk: Option<TranslationMeta>,
    prompts: Vec<String>,
    fail_on: Option<String>,
    clock: u64,
}

impl Fake {
    fn new(files: &[(&str, &str)]) -> Fake {
        Fake {
            files: files.iter().map(|(p, c)| (p.to_string(), c.as_bytes().to_vec())).collect(),
            written: BTreeMap::new(),
            made: Vec::new(),
            disk: None,
            prompts: Vec::new(),
            fail_on: None,
            clock: 1000,
        }
    }

    /// Plays a run to its end, or to the failure of the backend.
    fn drive(&mut self, engine: &mut SyncEngine) -> Option<Summary> {
        let mut action = engine.pending();
        loop {
            let event = match action {
                Action::ReadBytes { path } => Event::Bytes(self.files[&path].clone()),
                Action::ReadText { path, directory } => {
                    self.made.push(directory);
                    Event::Text(String::from_utf8(self.files[&path].clone()).unwrap())
                }
                Action::WriteEmpty { path: _, output_path } => {
                    self.written.insert(output_path, Vec::new());
                    self.clock += 1;
                    Event::Written { now: self.clock }
                }
                Action::Translate { path, prompt, output_path } => {
                    if self.fail_on.as_deref() == Some(path.as_str()) {
                        return None;
                    }
                    let reply = format!("EN:{}", &prompt[PROMPT.len()..]);
                    self.prompts.push(prompt);
                    self.written.insert(output_path, reply.into_bytes());
                    self.clock += 1;
                    Event::Translated { now: self.clock }
                }
                Action::Persist { meta } => {
                    self.disk = Some(meta);
                    Event::Persisted
                }
                Action::Finish { summary } => return Some(summary),
            };
            action = engine.step(event).unwrap();
        }
    }
}

fn strings(items: &[&str]) -> Vec<String> {
    items.iter().map(|s| s.to_string()).collect()
}

fn engine(meta: TranslationMeta, files: &[&str]) -> SyncEngine {
    SyncEngine::new(meta, "c0".to_string(), strings(files), "src".to_string(), "out".to_string())
}

fn entry(path: &str, content: &str, at: u64) -> FileEntry {
    FileEntry {
        path: path.to_string(),
        hash: content_hash(content.as_bytes()),
        translation_timestamp: at,
    }
}

#[test]
fn prompt_goes_before_the_content() {
    assert_eq!(
        translation_prompt("Bonjour"),
        "translate the content to English: please just reply with the translated content\nBonjour"
    );
    assert_eq!(translation_prompt(""), PROMPT);
}

#[test]
fn first_reply_is_taken() {
    assert_eq!(first_reply(&vec![]), None);
    assert_eq!(first_reply(&vec![None, Some("b".to_string())]), None);
    assert_eq!(
        first_reply(&vec![Some("a".to_string()), Some("b".to_string())]),
        Some("a".to_string())
    );
}

#[test]
fn run_without_files_writes_metadata_and_ends() {
    let mut e = engine(TranslationMeta::new(), &[]);
    let mut expected = TranslationMeta::new();
    expected.set_commit("c0".to_string());
    assert_eq!(e.pending(), Action::Persist { meta: expected });
    assert!(!e.is_finished());
    let summary = Summary { total: 0, newly_translated: 0, up_to_date: 0 };
    assert_eq!(e.step(Event::Persisted), Ok(Action::Finish { summary }));
    assert!(e.is_finished());
    assert_eq!(e.summary(), summary);
    assert_eq!(e.step(Event::Persisted), Err(SyncError::UnexpectedEvent));
}

#[test]
fn new_file_is_translated_step_by_step() {
    let mut e = engine(TranslationMeta::new(), &["src/docs/a.md"]);
    assert_eq!(e.pending(), Action::ReadBytes { path: "src/docs/a.md".to_string() });
    assert_eq!(
        e.step(Event::Bytes(b"Hello".to_vec())),
        Ok(Action::ReadText {
            path: "src/docs/a.md".to_string(),
            directory: "out/docs".to_string()
        })
    );
    assert_eq!(
        e.step(Event::Text("Hello".to_string())),
        Ok(Action::Translate {
            path: "src/docs/a.md".to_string(),
            prompt: format!("{}Hello", PROMPT),
            output_path: "out/docs/a.md".to_string()
        })
    );
    assert!(e.meta().files.is_empty());
    let mut expected = TranslationMeta::new();
    expected.set_commit("c0".to_string());
    expected.record(
        "src/docs/a.md".to_string(),
        "185f8db32271fe25f561a6fc938b2e264306ec304eda518007d1764826381969".to_string(),
        77,
    );
    assert_eq!(
        e.step(Event::Translated { now: 77 }),
        Ok(Action::Persist { meta: expected.clone() })
    );
    assert_eq!(e.meta(), &expected);
    assert_eq!(e.step(Event::Persisted), Ok(Action::Persist { meta: expected }));
    assert_eq!(
        e.step(Event::Persisted),
        Ok(Action::Finish { summary: Summary { total: 1, newly_translated: 1, up_to_date: 0 } })
    );
}

#[test]
fn event_that_answers_nothing_is_refused() {
    let mut e = engine(TranslationMeta::new(), &["src/a.md"]);
    for event in [
        Event::Text("x".to_string()),
        Event::Written { now: 1 },
        Event::Translated { now: 1 },
        Event::Persisted,
    ] {
        assert_eq!(e.step(event), Err(SyncError::UnexpectedEvent));
        assert_eq!(e.pending(), Action::ReadBytes { path: "src/a.md".to_string() });
    }
    e.step(Event::Bytes(b"x".to_vec())).unwrap();
    for event in [
        Event::Bytes(vec![1]),
        Event::Written { now: 1 },
        Event::Translated { now: 1 },
        Event::Persisted,
    ] {
        assert_eq!(e.step(event), Err(SyncError::UnexpectedEvent));
    }
    e.step(Event::Text("x".to_string())).unwrap();
    for event in [
        Event::Bytes(vec![1]),
        Event::Text("y".to_string()),
        Event::Written { now: 1 },
        Event::Persisted,
    ] {
        assert_eq!(e.step(event), Err(SyncError::UnexpectedEvent));
    }
    assert!(e.meta().files.is_empty());
    e.step(Event::Translated { now: 5 }).unwrap();
    assert_eq!(e.step(Event::Written { now: 6 }), Err(SyncError::UnexpectedEvent));
    assert_eq!(e.step(Event::Translated { now: 6 }), Err(SyncError::UnexpectedEvent));
    assert_eq!(e.meta().files.len(), 1);

    let mut blank = engine(TranslationMeta::new(), &["src/a.md"]);
    blank.step(Event::Bytes(Vec::new())).unwrap();
    blank.step(Event::Text(String::new())).unwrap();
    for event in [
        Event::Bytes(vec![1]),
        Event::Text(String::new()),
        Event::Translated { now: 1 },
        Event::Persisted,
    ] {
        assert_eq!(blank.step(event), Err(SyncError::UnexpectedEvent));
    }
    assert!(blank.meta().files.is_empty());
}

#[test]
fn recorded_hash_is_passed_over() {
    let mut meta = TranslationMeta::new();
    meta.record("src/a.md".to_string(), content_hash(b"Hello"), 5);
    let mut e = engine(meta, &["src/a.md", "src/b.md"]);
    assert_eq!(
        e.step(Event::Bytes(b"Hello".to_vec())),
        Ok(Action::ReadBytes { path: "src/b.md".to_string() })
    );
    assert_eq!(e.summary(), Summary { total: 2, newly_translated: 0, up_to_date: 1 });
}

#[test]
fn summary_counts_the_files_done_with() {
    let mut fake = Fake::new(&[("src/a.md", "Un"), ("src/b.md", ""), ("src/c.md", "Trois")]);
    let mut e = engine(TranslationMeta::new(), &["src/a.md", "src/b.md", "src/c.md"]);
    assert_eq!(e.summary(), Summary { total: 3, newly_translated: 0, up_to_date: 0 });
    e.step(Event::Bytes(b"Un".to_vec())).unwrap();
    e.step(Event::Text("Un".to_string())).unwrap();
    e.step(Event::Translated { now: 1 }).unwrap();
    assert_eq!(e.summary(), Summary { total: 3, newly_translated: 0, up_to_date: 0 });
    e.step(Event::Persisted).unwrap();
    assert_eq!(e.summary(), Summary { total: 3, newly_translated: 1, up_to_date: 0 });
    e.step(Event::Bytes(Vec::new())).unwrap();
    e.step(Event::Text(String::new())).unwrap();
    e.step(Event::Written { now: 2 }).unwrap();
    assert_eq!(e.summary(), Summary { total: 3, newly_translated: 1, up_to_date: 0 });
    e.step(Event::Persisted).unwrap();
    assert_eq!(e.summary(), Summary { total: 3, newly_translated: 1, up_to_date: 1 });
    let summary = fake.drive(&mut e).unwrap();
    assert_eq!(summary, Summary { total: 3, newly_translated: 2, up_to_date: 1 });
    assert_eq!(e.summary(), summary);
}

const EMPTY_HASH: &str = "e3b0c44298fc1c149afbf4c8996fb92427ae41e4649b934ca495991b7852b855";

#[test]
fn empty_file_gets_empty_output_and_an_entry() {
    let mut fake = Fake::new(&[("src/a.md", ""), ("src/b.md", "Salut")]);
    let mut e = engine(TranslationMeta::new(), &["src/a.md", "src/b.md"]);
    assert_eq!(
        e.step(Event::Bytes(Vec::new())),
        Ok(Action::ReadText { path: "src/a.md".to_string(), directory: "out".to_string() })
    );
    assert_eq!(
        e.step(Event::Text(String::new())),
        Ok(Action::WriteEmpty {
            path: "src/a.md".to_string(),
            output_path: "out/a.md".to_string()
        })
    );
    assert!(e.meta().files.is_empty());
    let mut expected = TranslationMeta::new();
    expected.set_commit("c0".to_string());
    expected.record("src/a.md".to_string(), EMPTY_HASH.to_string(), 9);
    assert_eq!(e.step(Event::Written { now: 9 }), Ok(Action::Persist { meta: expected.clone() }));
    assert_eq!(e.meta(), &expected);
    assert_eq!(e.step(Event::Persisted), Ok(Action::ReadBytes { path: "src/b.md".to_string() }));
    assert_eq!(e.summary(), Summary { total: 2, newly_translated: 0, up_to_date: 1 });
    let summary = fake.drive(&mut e).unwrap();
    assert_eq!(summary, Summary { total: 2, newly_translated: 1, up_to_date: 1 });
    assert_eq!(
        e.meta().files,
        vec![
            FileEntry {
                path: "src/a.md".to_string(),
                hash: EMPTY_HASH.to_string(),
                translation_timestamp: 9
            },
            entry("src/b.md", "Salut", 1001)
        ]
    );
    assert_eq!(fake.prompts, vec![format!("{}Salut", PROMPT)]);
}

#[test]
fn empty_file_is_written_empty_in_a_whole_run() {
    let mut fake = Fake::new(&[("src/a.md", "")]);
    let mut e = engine(TranslationMeta::new(), &["src/a.md"]);
    let summary = fake.drive(&mut e).unwrap();
    assert_eq!(summary, Summary { total: 1, newly_translated: 0, up_to_date: 1 });
    assert_eq!(fake.written["out/a.md"], Vec::<u8>::new());
    assert!(fake.prompts.is_empty());
    assert_eq!(
        fake.disk.unwrap().files,
        vec![FileEntry {
            path: "src/a.md".to_string(),
            hash: EMPTY_HASH.to_string(),
            translation_timestamp: 1001
        }]
    );
    assert_eq!(content_hash(b""), EMPTY_HASH);
}

/// A checkout named `r` that holds the empty file `e.md`, a filter for
/// `*.md` that excludes nothing, no metadata from a run before: after the
/// run the metadata on disk holds one entry, for `e.md`, with the hash of
/// no bytes.
#[test]
fn empty_file_alone_is_recorded_with_the_hash_of_nothing() {
    let places = layout("./workspace", "r");
    let path = format!("{}/e.md", places.source_root);
    let mut fake = Fake::new(&[(&path, "")]);
    let mut walker = TreeWalker::new(places.source_root.clone());
    while let Some(_) = walker.next_dir() {
        walker.visit(&vec![DirEntry { path: path.clone(), is_dir: false }]);
    }
    let filter =
        Filter { target: "*.md".to_string(), includes: Vec::new(), excludes: Vec::new() };
    let parts = filter.classify(&walker.into_files());
    assert_eq!(parts.translatable, vec![path.clone()]);
    assert!(parts.pass_through.is_empty());
    assert!(fake.disk.is_none());
    let mut e = SyncEngine::new(
        TranslationMeta::new(),
        "abc".to_string(),
        parts.translatable,
        places.source_root.clone(),
        places.output_root.clone(),
    );
    fake.drive(&mut e).unwrap();
    let disk = fake.disk.unwrap();
    assert_eq!(disk.files.len(), 1);
    assert_eq!(disk.files[0].path, "./workspace/r/e.md");
    assert_eq!(
        disk.files[0].hash,
        "e3b0c44298fc1c149afbf4c8996fb92427ae41e4649b934ca495991b7852b855"
    );
    assert_eq!(fake.written["./workspace/r-translated/e.md"], Vec::<u8>::new());
    assert!(fake.prompts.is_empty());
}

#[test]
fn empty_file_is_written_once() {
    let mut fake = Fake::new(&[("src/a.md", "")]);
    let mut first = engine(TranslationMeta::new(), &["src/a.md"]);
    fake.drive(&mut first).unwrap();
    fake.written.clear();
    fake.made.clear();
    let mut second = engine(fake.disk.take().unwrap(), &["src/a.md"]);
    assert_eq!(
        second.step(Event::Bytes(Vec::new())),
        Ok(Action::Persist { meta: second.meta().clone() })
    );
    let summary = fake.drive(&mut second).unwrap();
    assert_eq!(summary, Summary { total: 1, newly_translated: 0, up_to_date: 1 });
    assert!(fake.written.is_empty());
    assert!(fake.made.is_empty());
    assert_eq!(fake.disk.unwrap().files.len(), 1);
}

/// A file that the filter does not pick is copied byte for byte on every
/// run, whatever the metadata holds, and gets no entry.
#[test]
fn other_file_is_copied_as_it_is_and_not_recorded() {
    let bytes: Vec<u8> = vec![0x00, 0xff, 0xfe, 0x80, 0x0a, 0xc3, 0x28];
    let mut fake = Fake::new(&[("src/a.md", "Un")]);
    fake.files.insert("src/img/logo.png".to_string(), bytes.clone());
    let filter =
        Filter { target: "*.md".to_string(), includes: Vec::new(), excludes: Vec::new() };
    let mut meta = TranslationMeta::new();
    for _ in 0..2 {
        let parts = filter.classify(&strings(&["src/a.md", "src/img/logo.png"]));
        assert_eq!(parts.pass_through, strings(&["src/img/logo.png"]));
        fake.written.clear();
        for job in copy_jobs(&parts.pass_through, "src", "out") {
            assert_eq!(job.directory, "out/img");
            let content = fake.files[&job.source].clone();
            fake.written.insert(job.destination, content);
        }
        let mut e = SyncEngine::new(
            meta,
            "c".to_string(),
            parts.translatable,
            "src".to_string(),
            "out".to_string(),
        );
        fake.drive(&mut e).unwrap();
        assert_eq!(fake.written["out/img/logo.png"], bytes);
        assert_eq!(fake.files["src/img/logo.png"], bytes);
        meta = fake.disk.take().unwrap();
        assert_eq!(meta.files.len(), 1);
        assert_eq!(meta.files[0].path, "src/a.md");
    }
}

#[test]
fn second_run_translates_nothing() {
    let mut fake = Fake::new(&[("src/a.md", "Un"), ("src/b.md", ""), ("src/c/d.md", "Deux")]);
    let files = ["src/a.md", "src/b.md", "src/c/d.md"];
    let mut first = engine(TranslationMeta::new(), &files);
    let summary = fake.drive(&mut first).unwrap();
    assert_eq!(summary, Summary { total: 3, newly_translated: 2, up_to_date: 1 });
    assert_eq!(fake.prompts.len(), 2);
    let left = fake.disk.take().unwrap();
    assert_eq!(
        left.files,
        vec![
            entry("src/a.md", "Un", 1001),
            entry("src/b.md", "", 1002),
            entry("src/c/d.md", "Deux", 1003)
        ]
    );
    let outputs = fake.written.clone();
    let made = fake.made.len();

    let mut second = engine(left.clone(), &files);
    let summary = fake.drive(&mut second).unwrap();
    assert_eq!(summary, Summary { total: 3, newly_translated: 0, up_to_date: 3 });
    assert_eq!(fake.prompts.len(), 2);
    assert_eq!(fake.written, outputs);
    assert_eq!(fake.made.len(), made);
    assert_eq!(fake.disk.unwrap().files, left.files);
}

#[test]
fn changed_file_alone_is_translated_again() {
    let mut fake = Fake::new(&[("src/a.md", "Un"), ("src/b.md", "Deux"), ("src/c.md", "Trois")]);
    let files = ["src/a.md", "src/b.md", "src/c.md"];
    let mut first = engine(TranslationMeta::new(), &files);
    fake.drive(&mut first).unwrap();
    let left = fake.disk.take().unwrap();
    assert_ne!(content_hash(b"Deux"), content_hash(b"Deux!"));

    fake.files.insert("src/b.md".to_string(), b"Deux!".to_vec());
    fake.prompts.clear();
    let mut second = engine(left.clone(), &files);
    let summary = fake.drive(&mut second).unwrap();
    assert_eq!(summary, Summary { total: 3, newly_translated: 1, up_to_date: 2 });
    assert_eq!(fake.prompts, vec![format!("{}Deux!", PROMPT)]);
    let mut expected = left.files;
    expected.push(entry("src/b.md", "Deux!", 1004));
    assert_eq!(fake.disk.unwrap().files, expected);
    assert_eq!(fake.written["out/b.md"], b"EN:Deux!".to_vec());
}

#[test]
fn file_changed_back_is_passed_over() {
    let mut fake = Fake::new(&[("src/a.md", "Un")]);
    let mut first = engine(TranslationMeta::new(), &["src/a.md"]);
    fake.drive(&mut first).unwrap();
    fake.files.insert("src/a.md".to_string(), b"Deux".to_vec());
    let mut second = engine(fake.disk.take().unwrap(), &["src/a.md"]);
    fake.drive(&mut second).unwrap();
    fake.files.insert("src/a.md".to_string(), b"Un".to_vec());
    fake.prompts.clear();
    let mut third = engine(fake.disk.take().unwrap(), &["src/a.md"]);
    let summary = fake.drive(&mut third).unwrap();
    assert_eq!(summary, Summary { total: 1, newly_translated: 0, up_to_date: 1 });
    assert!(fake.prompts.is_empty());
    assert_eq!(fake.disk.unwrap().files.len(), 2);
}

#[test]
fn failed_call_keeps_finished_work_on_disk() {
    let mut fake = Fake::new(&[
        ("src/a.md", "Un"),
        ("src/b.md", "Deux"),
        ("src/c.md", "Trois"),
        ("src/d.md", "Quatre"),
    ]);
    fake.fail_on = Some("src/c.md".to_string());
    let mut e = engine(TranslationMeta::new(), &["src/a.md", "src/b.md", "src/c.md", "src/d.md"]);
    assert_eq!(fake.drive(&mut e), None);
    let disk = fake.disk.take().unwrap();
    assert_eq!(disk.commit, "c0");
    assert_eq!(disk.files, vec![entry("src/a.md", "Un", 1001), entry("src/b.md", "Deux", 1002)]);
    assert_eq!(e.meta(), &disk);
    assert!(!fake.written.contains_key("out/c.md"));
    assert!(!fake.written.contains_key("out/d.md"));

    fake.fail_on = None;
    let mut again =
        engine(disk, &["src/a.md", "src/b.md", "src/c.md", "src/d.md"]);
    let summary = fake.drive(&mut again).unwrap();
    assert_eq!(summary, Summary { total: 4, newly_translated: 2, up_to_date: 2 });
}

#[test]
fn first_call_failing_leaves_disk_untouched() {
    let mut fake = Fake::new(&[("src/a.md", "Un")]);
    fake.fail_on = Some("src/a.md".to_string());
    let mut e = engine(TranslationMeta::new(), &["src/a.md"]);
    assert_eq!(fake.drive(&mut e), None);
    assert!(fake.disk.is_none());
    assert!(e.meta().files.is_empty());
}

#[test]
fn same_file_twice_is_translated_once() {
    let mut fake = Fake::new(&[("src/a.md", "Un")]);
    let mut e = engine(TranslationMeta::new(), &["src/a.md", "src/a.md"]);
    let summary = fake.drive(&mut e).unwrap();
    assert_eq!(summary, Summary { total: 2, newly_translated: 1, up_to_date: 1 });
    assert_eq!(fake.prompts.len(), 1);
}

#[test]
fn commit_is_noted_at_the_start() {
    let mut meta = TranslationMeta::new();
    meta.set_commit("old".to_string());
    meta.record("src/a.md".to_string(), "aa".to_string(), 1);
    let e = SyncEngine::new(
        meta,
        "new".to_string(),
        Vec::new(),
        "src".to_string(),
        "out".to_string(),
    );
    assert_eq!(e.meta().commit, "new");
    assert_eq!(e.meta().files.len(), 1);
}

#[test]
fn stage_names_what_is_awaited() {
    let mut e = engine(TranslationMeta::new(), &["src/a.md"]);
    assert_eq!(e.stage(), &Stage::Hash);
    e.step(Event::Bytes(b"Hello".to_vec())).unwrap();
    assert_eq!(
        e.stage(),
        &Stage::Load {
            hash: "185f8db32271fe25f561a6fc938b2e264306ec304eda518007d1764826381969".to_string()
        }
    );
    e.step(Event::Text("Hello".to_string())).unwrap();
    assert_eq!(
        e.stage(),
        &Stage::Translate {
            hash: "185f8db32271fe25f561a6fc938b2e264306ec304eda518007d1764826381969".to_string(),
            text: "Hello".to_string()
        }
    );
    e.step(Event::Translated { now: 1 }).unwrap();
    assert_eq!(e.stage(), &Stage::Persist { translated: true });
    e.step(Event::Persisted).unwrap();
    assert_eq!(e.stage(), &Stage::Close);
    e.step(Event::Persisted).unwrap();
    assert_eq!(e.stage(), &Stage::Done);

    let mut blank = engine(TranslationMeta::new(), &["src/a.md"]);
    blank.step(Event::Bytes(Vec::new())).unwrap();
    blank.step(Event::Text(String::new())).unwrap();
    assert_eq!(blank.stage(), &Stage::Blank { hash: EMPTY_HASH.to_string() });
    blank.step(Event::Written { now: 3 }).unwrap();
    assert_eq!(blank.stage(), &Stage::Persist { translated: false });
}

#[test]
fn copy_job_names_the_place_in_the_mirror() {
    assert_eq!(
        copy_job("src/img/logo.png", "src", "out"),
        CopyJob {
            source: "src/img/logo.png".to_string(),
            directory: "out/img".to_string(),
            destination: "out/img/logo.png".to_string(),
        }
    );
    let jobs = copy_jobs(&strings(&["src/a", "src/b/c"]), "src", "out");
    assert_eq!(jobs.len(), 2);
    assert_eq!(jobs[0].destination, "out/a");
    assert_eq!(jobs[0].directory, "out");
    assert_eq!(jobs[1].destination, "out/b/c");
    assert_eq!(jobs[1].directory, "out/b");
    assert!(copy_jobs(&Vec::new(), "src", "out").is_empty());
}

/// A checkout with `a.md`, `b.txt` and `draft/c.md`, a filter for `*.md`
/// that excludes `draft`: `a.md` is translated and recorded, the two others
/// are copied and leave no entry.
#[test]
fn translates_matching_files_and_copies_the_rest() {
    let places = layout("./workspace", "https://example.org/team/docs.git");
    let root = places.source_root.clone();
    let a = format!("{}/a.md", root);
    let b = format!("{}/b.txt", root);
    let c = format!("{}/draft/c.md", root);
    let mut fake = Fake::new(&[(&a, "Hello"), (&b, "X"), (&c, "Brouillon")]);

    let mut walker = TreeWalker::new(root.clone());
    while let Some(dir) = walker.next_dir() {
        let listing = if dir == root {
            vec![
                DirEntry { path: format!("{}/.git", root), is_dir: true },
                DirEntry { path: a.clone(), is_dir: false },
                DirEntry { path: b.clone(), is_dir: false },
                DirEntry { path: format!("{}/draft", root), is_dir: true },
            ]
        } else {
            assert_eq!(dir, format!("{}/draft", root));
            vec![DirEntry { path: c.clone(), is_dir: false }]
        };
        walker.visit(&listing);
    }
    let files = walker.into_files();
    assert_eq!(files, vec![a.clone(), b.clone(), c.clone()]);

    let filter = Filter {
        target: "*.md".to_string(),
        includes: Vec::new(),
        excludes: vec!["draft".to_string()],
    };
    let parts = filter.classify(&files);
    assert_eq!(parts.translatable, vec![a.clone()]);
    assert_eq!(parts.pass_through, vec![b.clone(), c.clone()]);

    let jobs = copy_jobs(&parts.pass_through, &places.source_root, &places.output_root);
    for job in &jobs {
        let content = fake.files[&job.source].clone();
        fake.written.insert(job.destination.clone(), content);
    }
    assert_eq!(jobs[0].destination, "./workspace/docs-translated/b.txt");
    assert_eq!(jobs[1].destination, "./workspace/docs-translated/draft/c.md");
    assert_eq!(jobs[1].directory, "./workspace/docs-translated/draft");

    let mut e = SyncEngine::new(
        TranslationMeta::new(),
        "abc123".to_string(),
        parts.translatable,
        places.source_root.clone(),
        places.output_root.clone(),
    );
    let summary = fake.drive(&mut e).unwrap();
    assert_eq!(summary, Summary { total: 1, newly_translated: 1, up_to_date: 0 });

    assert_eq!(fake.written["./workspace/docs-translated/a.md"], b"EN:Hello".to_vec());
    assert_eq!(fake.written["./workspace/docs-translated/b.txt"], b"X".to_vec());
    assert_eq!(fake.written["./workspace/docs-translated/draft/c.md"], b"Brouillon".to_vec());
    assert_eq!(fake.made, vec!["./workspace/docs-translated".to_string()]);
    let disk = fake.disk.unwrap();
    assert_eq!(disk.commit, "abc123");
    assert_eq!(
        disk.files,
        vec![FileEntry {
            path: a,
            hash: "185f8db32271fe25f561a6fc938b2e264306ec304eda518007d1764826381969"
                .to_string(),
            translation_timestamp: 1001,
        }]
    );
    assert_eq!(places.meta_path, "./workspace/docs.meta.json");
}
