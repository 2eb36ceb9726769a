use autodocs::filter::{
    char_is_whitespace, matches_exclude, matches_suffix, parse_target_suffix, Filter,
};

fn strings(items: &[&str]) -> Vec<String> {
    items.iter().map(|s| s.to_string()).collect()
}

fn filter(target: &str, excludes: &[&str]) -> Filter {
    Filter { target: target.to_string(), includes: Vec::new(), excludes: strings(excludes) }
}

#[test]
fn target_names_two_suffixes() {
    assert_eq!(parse_target_suffix("*.md *.txt"), strings(&["md", "txt"]));
}

#[test]
fn target_with_one_pattern() {
    assert_eq!(parse_target_suffix("*.md"), strings(&["md"]));
}

#[test]
fn empty_target_names_the_empty_suffix() {
    assert_eq!(parse_target_suffix(""), strings(&[""]));
    assert_eq!(parse_target_suffix("* ."), strings(&["", ""]));
    assert_eq!(parse_target_suffix("   "), strings(&["", "", "", ""]));
}

#[test]
fn each_white_space_character_parts_two_suffixes() {
    assert_eq!(parse_target_suffix("*.md  *.txt"), strings(&["md", "", "txt"]));
    assert_eq!(parse_target_suffix(" *.md"), strings(&["", "md"]));
    assert_eq!(parse_target_suffix("*.md "), strings(&["md", ""]));
    assert_eq!(parse_target_suffix("*.md\t*.rst\n*.txt"), strings(&["md", "rst", "txt"]));
    assert_eq!(parse_target_suffix("*.md\u{3000}*.txt"), strings(&["md", "txt"]));
}

#[test]
fn empty_suffix_is_met_by_every_path() {
    let suffixes = parse_target_suffix("");
    assert!(matches_suffix("docs/readme.md", &suffixes));
    assert!(matches_suffix("", &suffixes));
    let f = filter("*.md  *.txt", &["draft"]);
    assert!(f.is_translatable("picture.png"));
    assert!(!f.is_translatable("draft/picture.png"));
}

#[test]
fn marks_are_taken_out_everywhere() {
    assert_eq!(parse_target_suffix("*.tar.gz"), strings(&["targz"]));
    assert_eq!(parse_target_suffix("a*b.c"), strings(&["abc"]));
}

#[test]
fn white_space_is_what_unicode_says() {
    for c in [' ', '\t', '\n', '\u{b}', '\u{c}', '\r', '\u{85}', '\u{a0}', '\u{1680}', '\u{2000}',
        '\u{200a}', '\u{2028}', '\u{2029}', '\u{202f}', '\u{205f}', '\u{3000}']
    {
        assert!(char_is_whitespace(c));
        assert!(c.is_whitespace());
    }
    for c in ['a', '.', '*', '\u{8}', '\u{e}', '\u{200b}', '\u{1f}', '\u{2007}'] {
        assert_eq!(char_is_whitespace(c), c.is_whitespace());
    }
}

#[test]
fn suffix_is_compared_letter_by_letter() {
    let suffixes = parse_target_suffix("*.md *.txt");
    assert!(matches_suffix("docs/readme.md", &suffixes));
    assert!(!matches_suffix("notes.mdx", &suffixes));
    assert!(matches_suffix("notes.xmd", &suffixes));
    assert!(matches_suffix("foomd", &suffixes));
    assert!(matches_suffix("a/b.txt", &suffixes));
    assert!(!matches_suffix("a/b.rs", &suffixes));
    assert!(!matches_suffix("d", &suffixes));
}

#[test]
fn no_suffix_no_candidate() {
    assert!(!matches_suffix("docs/readme.md", &Vec::new()));
}

#[test]
fn excluded_substring_anywhere_in_the_path() {
    let excludes = strings(&["draft", "tmp/"]);
    assert!(matches_exclude("draft/c.md", &excludes));
    assert!(matches_exclude("a/my-draft-2.md", &excludes));
    assert!(matches_exclude("a/tmp/x.md", &excludes));
    assert!(!matches_exclude("a/tmp.md", &excludes));
    assert!(!matches_exclude("a/b.md", &excludes));
    assert!(!matches_exclude("a/b.md", &Vec::new()));
}

#[test]
fn excluded_candidate_is_not_translated() {
    let f = filter("*.md", &["draft"]);
    assert!(f.is_translatable("repo/a.md"));
    assert!(!f.is_translatable("repo/draft/c.md"));
    assert!(!f.is_translatable("repo/b.txt"));
    assert!(!f.is_translatable("repo/draft/b.txt"));
}

#[test]
fn classify_parts_every_file() {
    let f = filter("*.md", &["draft"]);
    let files = strings(&["r/a.md", "r/b.txt", "r/draft/c.md", "r/d/e.md", "r/a.md"]);
    let parts = f.classify(&files);
    assert_eq!(parts.translatable, strings(&["r/a.md", "r/d/e.md", "r/a.md"]));
    assert_eq!(parts.pass_through, strings(&["r/b.txt", "r/draft/c.md"]));
}

#[test]
fn filter_suffixes_are_those_of_its_target() {
    let f = filter("*.md *.txt", &[]);
    assert_eq!(f.suffixes(), strings(&["md", "txt"]));
}
