//! Where things lie: the checkout, its translated mirror and the metadata
//! file inside a workspace, and the place of each file in the mirror.

use crate::text::{
    chars_of, first_position, last_position, law_last_position_is_last, slice_first_position, slice_last_position,
    slice_starts_with, string_of, string_of_range,
};
use vstd::prelude::*;
use vstd::string::*;

verus! {

/// What follows the last `/` of `path`; the whole of a path without one.
pub open spec fn file_name_of(path: Seq<char>) -> Seq<char> {
    match last_position(path, '/') {
        Some(i) => path.skip(i + 1),
        None => path,
    }
}

/// What stands before the last `/` of `path`; the whole of a path without
/// one.
pub open spec fn parent_of(path: Seq<char>) -> Seq<char> {
    match last_position(path, '/') {
        Some(i) => path.take(i),
        None => path,
    }
}

/// The name under which a repository is checked out: the last segment of
/// its address, up to the first `.` in that segment.
pub open spec fn repo_name_of(repo: Seq<char>) -> Seq<char> {
    let leaf = file_name_of(repo);
    match first_position(leaf, '.') {
        Some(i) => leaf.take(i),
        None => leaf,
    }
}

/// The place in the mirror of the file at `path`: the source root at the
/// front of the path gives way to the output root. A path that does not
/// begin with the source root stays as it is.
pub open spec fn mirror_of(
    path: Seq<char>,
    source_root: Seq<char>,
    output_root: Seq<char>,
) -> Seq<char> {
    if source_root.is_prefix_of(path) {
        output_root + path.skip(source_root.len() as int)
    } else {
        path
    }
}

/// The directory of the checkout of `repo` inside `workspace`.
pub open spec fn source_root_of(workspace: Seq<char>, repo: Seq<char>) -> Seq<char> {
    workspace.push('/') + repo_name_of(repo)
}

/// The directory of the translated mirror of `repo` inside `workspace`.
pub open spec fn output_root_of(workspace: Seq<char>, repo: Seq<char>) -> Seq<char> {
    source_root_of(workspace, repo) + "-translated"@
}

/// The metadata file of `repo` inside `workspace`.
pub open spec fn meta_path_of(workspace: Seq<char>, repo: Seq<char>) -> Seq<char> {
    source_root_of(workspace, repo) + ".meta.json"@
}

/// The name of the file at `path`: `file.txt` for `/path/to/file.txt`, and
/// the path itself where it holds no `/`.
pub fn filename(path: &str) -> (name: String)
    ensures
        name@ == file_name_of(path@),
{
    let chars = chars_of(path);
    let end: usize = chars.len();
    match slice_last_position(chars.as_slice(), '/') {
        Some(i) => string_of_range(chars.as_slice(), i + 1, end),
        None => string_of(chars.as_slice()),
    }
}

/// The directory that holds the file at `path`: what stands before the
/// last `/`, and the path itself where it holds none.
pub fn parent_dir(path: &str) -> (dir: String)
    ensures
        dir@ == parent_of(path@),
{
    let chars = chars_of(path);
    match slice_last_position(chars.as_slice(), '/') {
        Some(i) => string_of_range(chars.as_slice(), 0, i),
        None => string_of(chars.as_slice()),
    }
}

/// The name under which the repository at the address `repo` is checked
/// out: `docs` for `https://example.org/team/docs.git`.
pub fn repo_name(repo: &str) -> (name: String)
    ensures
        name@ == repo_name_of(repo@),
{
    let leaf = filename(repo);
    let chars = chars_of(leaf.as_str());
    match slice_first_position(chars.as_slice(), '.') {
        Some(i) => string_of_range(chars.as_slice(), 0, i),
        None => string_of(chars.as_slice()),
    }
}

/// The place in the mirror under `output_root` of the file at `path` under
/// `source_root`.
pub fn mirror_path(path: &str, source_root: &str, output_root: &str) -> (mirrored: String)
    ensures
        mirrored@ == mirror_of(path@, source_root@, output_root@),
{
    let chars = chars_of(path);
    let root = chars_of(source_root);
    if slice_starts_with(chars.as_slice(), root.as_slice()) {
        let rest = string_of_range(chars.as_slice(), root.len(), chars.len());
        let mut mirrored = output_root.to_owned();
        mirrored.append(rest.as_str());
        mirrored
    } else {
        string_of(chars.as_slice())
    }
}

/// The three places a run works with.
#[derive(Clone, Debug, PartialEq, Eq)]
pub struct Layout {
    /// The directory of the checkout.
    pub source_root: String,
    /// The directory of the translated mirror.
    pub output_root: String,
    /// The metadata file.
    pub meta_path: String,
}

/// The workspace that a run uses where none is named.
pub fn default_workspace() -> (workspace: String)
    ensures
        workspace@ == "./workspace"@,
{
    "./workspace".to_owned()
}

/// Lays out the checkout of `repo`, its mirror and its metadata file inside
/// `workspace`.
pub fn layout(workspace: &str, repo: &str) -> (places: Layout)
    ensures
        places.source_root@ == source_root_of(workspace@, repo@),
        places.output_root@ == output_root_of(workspace@, repo@),
        places.meta_path@ == meta_path_of(workspace@, repo@),
{
    let name = repo_name(repo);
    let mut source_root = workspace.to_owned();
    source_root.push('/');
    source_root.append(name.as_str());
    let mut output_root = source_root.clone();
    output_root.append("-translated");
    let mut meta_path = source_root.clone();
    meta_path.append(".meta.json");
    Layout { source_root, output_root, meta_path }
}

/// The copy of one file into the mirror.
#[derive(Clone, Debug, PartialEq, Eq)]
pub struct CopyJob {
    /// The file to copy.
    pub source: String,
    /// The directory that has to exist before the copy is written.
    pub directory: String,
    /// The place of the copy.
    pub destination: String,
}

/// What a `CopyJob` holds.
pub struct CopyPlan {
    pub source: Seq<char>,
    pub directory: Seq<char>,
    pub destination: Seq<char>,
}

impl View for CopyJob {
    type V = CopyPlan;

    open spec fn view(&self) -> CopyPlan {
        CopyPlan {
            source: self.source@,
            directory: self.directory@,
            destination: self.destination@,
        }
    }
}

/// The copy of the file at `path` into the mirror.
pub open spec fn copy_of(
    path: Seq<char>,
    source_root: Seq<char>,
    output_root: Seq<char>,
) -> CopyPlan {
    CopyPlan {
        source: path,
        directory: parent_of(mirror_of(path, source_root, output_root)),
        destination: mirror_of(path, source_root, output_root),
    }
}

/// The copy of the file at `path` under `source_root` into the mirror
/// under `output_root`.
pub fn copy_job(path: &str, source_root: &str, output_root: &str) -> (job: CopyJob)
    ensures
        job@ == copy_of(path@, source_root@, output_root@),
{
    let destination = mirror_path(path, source_root, output_root);
    let directory = parent_dir(destination.as_str());
    CopyJob { source: path.to_owned(), directory, destination }
}

/// The copies of `files` into the mirror, one for each file, in order.
pub fn copy_jobs(files: &Vec<String>, source_root: &str, output_root: &str) -> (jobs: Vec<CopyJob>)
    ensures
        jobs@.len() == files@.len(),
        forall|i: int|
            0 <= i < files@.len() ==> (#[trigger] jobs@[i])@ == copy_of(
                files@[i]@,
                source_root@,
                output_root@,
            ),
{
    let mut jobs: Vec<CopyJob> = Vec::new();
    let mut i: usize = 0;
    while i < files.len()
        invariant
            i <= files.len(),
            jobs@.len() == i,
            forall|k: int|
                0 <= k < i ==> (#[trigger] jobs@[k])@ == copy_of(
                    files@[k]@,
                    source_root@,
                    output_root@,
                ),
        decreases files.len() - i,
    {
        jobs.push(copy_job(files[i].as_str(), source_root, output_root));
        i += 1;
    }
    jobs
}

/// A path with a `/` is its directory, the `/` and its name; a path without
/// one is its own name. The name holds no `/`.
pub proof fn law_path_is_parent_and_name(path: Seq<char>)
    ensures
        !file_name_of(path).contains('/'),
        path.contains('/') ==> parent_of(path).push('/') + file_name_of(path) == path,
        !path.contains('/') ==> file_name_of(path) == path && parent_of(path) == path,
{
    law_last_position_is_last(path, '/', path.len() as int);
    let name = file_name_of(path);
    match last_position(path, '/') {
        Some(i) => {
            assert(path[i] == '/');
            assert(parent_of(path).push('/') + name =~= path);
            assert forall|k: int| 0 <= k < name.len() implies name[k] != '/' by {
                assert(name[k] == path[i + 1 + k]);
            }
        },
        None => {
            assert forall|k: int| 0 <= k < name.len() implies name[k] != '/' by {
                assert(name[k] == path[k]);
            }
        },
    }
}

/// The mirror keeps the shape of the tree: a file that lies at `rest`
/// under the source root lies at `rest` under the output root.
pub proof fn law_mirror_keeps_the_tree(
    source_root: Seq<char>,
    output_root: Seq<char>,
    rest: Seq<char>,
)
    ensures
        mirror_of(source_root + rest, source_root, output_root) == output_root + rest,
{
    let path = source_root + rest;
    assert(path.subrange(0, source_root.len() as int) =~= source_root);
    assert(path.skip(source_root.len() as int) =~= rest);
}

/// Two files under the source root have two places in the mirror: files
/// that land at the same place are the same file.
pub proof fn law_mirror_tells_files_apart(
    a: Seq<char>,
    b: Seq<char>,
    source_root: Seq<char>,
    output_root: Seq<char>,
)
    requires
        source_root.is_prefix_of(a),
        source_root.is_prefix_of(b),
        mirror_of(a, source_root, output_root) == mirror_of(b, source_root, output_root),
    ensures
        a == b,
{
    let n = source_root.len() as int;
    let m = output_root.len() as int;
    let rest_a = a.skip(n);
    let rest_b = b.skip(n);
    assert((output_root + rest_a).skip(m) =~= rest_a);
    assert((output_root + rest_b).skip(m) =~= rest_b);
    assert(a =~= source_root + rest_a);
    assert(b =~= source_root + rest_b);
}

} // verus!
