use autodocs::paths::{default_workspace, filename, layout, mirror_path, parent_dir, repo_name};
use autodocs::text::{chars_of, contains, ends_with, starts_with, string_of};

#[test]
fn filename_is_the_last_segment() {
    assert_eq!(filename("/path/to/file.txt"), "file.txt");
    assert_eq!(filename("file.txt"), "file.txt");
    assert_eq!(filename("a/b/"), "");
    assert_eq!(filename(""), "");
}

#[test]
fn parent_is_what_stands_before_the_last_separator() {
    assert_eq!(parent_dir("./workspace/r-translated/docs/a.md"), "./workspace/r-translated/docs");
    assert_eq!(parent_dir("/a"), "");
    assert_eq!(parent_dir("a/b/"), "a/b");
    assert_eq!(parent_dir("plain"), "plain");
}

#[test]
fn repo_name_is_the_last_segment_up_to_the_first_dot() {
    assert_eq!(repo_name("https://example.org/team/docs.git"), "docs");
    assert_eq!(repo_name("git@example.org:team/my.docs.git"), "my");
    assert_eq!(repo_name("../local/checkout"), "checkout");
    assert_eq!(repo_name("plain"), "plain");
    assert_eq!(repo_name("team/"), "");
    assert_eq!(repo_name("team/.hidden"), "");
}

#[test]
fn layout_of_a_workspace() {
    let places = layout("./workspace", "https://example.org/team/docs.git");
    assert_eq!(places.source_root, "./workspace/docs");
    assert_eq!(places.output_root, "./workspace/docs-translated");
    assert_eq!(places.meta_path, "./workspace/docs.meta.json");
}

#[test]
fn layout_in_the_default_workspace() {
    assert_eq!(default_workspace(), "./workspace");
    let places = layout(&default_workspace(), "x/y");
    assert_eq!(places.source_root, "./workspace/y");
}

#[test]
fn mirror_swaps_the_root_at_the_front() {
    assert_eq!(
        mirror_path("./workspace/docs/a/b.md", "./workspace/docs", "./workspace/docs-translated"),
        "./workspace/docs-translated/a/b.md"
    );
    assert_eq!(mirror_path("src/src/a", "src", "out"), "out/src/a");
    assert_eq!(mirror_path("elsewhere/a.md", "src", "out"), "elsewhere/a.md");
    assert_eq!(mirror_path("a.md", "", "out/"), "out/a.md");
    assert_eq!(mirror_path("src", "src", "out"), "out");
}

#[test]
fn text_round_trip() {
    let chars = chars_of("héllo/wörld");
    assert_eq!(chars.len(), 11);
    assert_eq!(string_of(&chars), "héllo/wörld");
}

#[test]
fn text_questions() {
    assert!(ends_with("readme.md", "md"));
    assert!(ends_with("readme.md", ""));
    assert!(!ends_with("md", "readme.md"));
    assert!(starts_with("readme.md", "read"));
    assert!(!starts_with("readme.md", "eadme"));
    assert!(contains("readme.md", "dme"));
    assert!(contains("readme.md", ""));
    assert!(contains("", ""));
    assert!(!contains("readme.md", "mdx"));
    assert!(!contains("", "a"));
}
