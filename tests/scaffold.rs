use exercise_downloader::record::Bite;
use exercise_downloader::scaffold::{
    backup_file_name, decimal_string, exercise_dir, plan_exercise,
};
use exercise_downloader::text::{
    auth_status_message, level_section, markdown_content, root_readme_content,
    root_toml_content, toml_content,
};

fn sample_bite(name: &str, slug: &str, level: &str) -> Bite {
    Bite::new(
        name,
        slug,
        "A test exercise",
        level,
        "fn main() {}",
        "serde = \"1.0\"\n",
        "testauthor",
    )
}

#[test]
fn test_write_toml() {
    let libs = "serde = \"1.0\"\n".to_string();
    let content = toml_content("my-exercise", &libs);
    assert!(content.contains("name = \"my-exercise\""));
    assert!(content.contains("edition = \"2024\""));
    assert!(content.contains("[dependencies]"));
    assert!(content.contains("serde = \"1.0\""));
}

#[test]
fn test_write_toml_empty_libraries() {
    let libs = String::new();
    let content = toml_content("bare-exercise", &libs);
    assert!(content.contains("name = \"bare-exercise\""));
    assert!(content.contains("[dependencies]"));
}

#[test]
fn toml_content_exact() {
    let libs = "serde = \"1.0\"\n".to_string();
    assert_eq!(
        toml_content("my-exercise", &libs),
        "[package]\nname = \"my-exercise\"\nversion = \"0.1.0\"\nedition = \"2024\"\n\n[dependencies]\nserde = \"1.0\"\n"
    );
}

#[test]
fn test_write_exercise_creates_src_dir_and_lib() {
    let template = "fn main() { println!(\"hello\"); }";
    let bite = Bite::new("Hello", "hello", "d", "intro", template, "", "bob");
    let plan = plan_exercise(&bite, false, 1_699_999_999);
    assert_eq!(plan.starter, template);
    assert!(plan.backup.is_none());
}

#[test]
fn test_write_exercise_backs_up_existing() {
    let original = Bite::new("Hello", "hello", "d", "intro", "fn original() {}", "", "bob");
    let updated = Bite::new("Hello", "hello", "d", "intro", "fn updated() {}", "", "bob");
    let first = plan_exercise(&original, false, 1_699_999_998);
    assert_eq!(first.starter, "fn original() {}");
    assert!(first.backup.is_none());
    let second = plan_exercise(&updated, true, 1_699_999_999);
    assert_eq!(second.starter, "fn updated() {}");
    assert_eq!(second.backup, Some("lib.rs.1699999999".to_string()));
}

#[test]
fn test_write_markdown() {
    let content = markdown_content("Test Bite", "Do the thing", "easy", "bob");
    assert!(content.contains("# Test Bite"));
    assert!(content.contains("Level: easy"));
    assert!(content.contains("Author: bob"));
    assert!(content.contains("Do the thing"));
}

#[test]
fn markdown_content_exact() {
    assert_eq!(
        markdown_content("Test Bite", "Do the thing", "easy", "bob"),
        "# Test Bite\n\n- Level: easy\n- Author: bob\n\n## Instructions\nDo the thing\n"
    );
}

#[test]
fn markdown_keeps_placeholder_words_literal() {
    let content = markdown_content("package_description", "desc", "intro", "ann");
    assert!(content.starts_with("# package_description\n"));
}

#[test]
fn test_write_root_toml() {
    let bites = vec![
        sample_bite("Hello", "hello", "intro"),
        sample_bite("Advanced", "advanced", "medium"),
    ];
    let content = root_toml_content(&bites);
    assert!(content.contains("[workspace]"));
    assert!(content.contains("resolver = \"3\""));
    assert!(content.contains("\"intro/hello\""));
    assert!(content.contains("\"medium/advanced\""));
}

#[test]
fn test_write_root_toml_empty() {
    let bites: Vec<Bite> = vec![];
    let content = root_toml_content(&bites);
    assert!(content.contains("[workspace]"));
    assert!(content.contains("members = ["));
}

#[test]
fn root_toml_exact() {
    let bites = vec![sample_bite("Hello", "hello", "intro")];
    assert_eq!(
        root_toml_content(&bites),
        "[workspace]\nresolver = \"3\"\nmembers = [\n    \"intro/hello\",\n]"
    );
    let none: Vec<Bite> = vec![];
    assert_eq!(root_toml_content(&none), "[workspace]\nresolver = \"3\"\nmembers = [\n]");
}

#[test]
fn test_write_root_readme() {
    let bites = vec![
        sample_bite("Hello", "hello", "intro"),
        sample_bite("Strings", "strings", "easy"),
    ];
    let content = root_readme_content(&bites);
    assert!(content.contains("# Pybites Rust"));
    assert!(content.contains("### Level: intro"));
    assert!(content.contains("### Level: easy"));
    assert!(content.contains("[intro/hello](intro/hello/bite.md)"));
    assert!(content.contains("[easy/strings](easy/strings/bite.md)"));
}

#[test]
fn test_write_root_readme_skips_unlisted_levels() {
    let bites = vec![sample_bite("Hard One", "hard-one", "hard")];
    let content = root_readme_content(&bites);
    assert!(!content.contains("hard-one"));
}

#[test]
fn root_readme_empty_has_three_bare_sections() {
    let none: Vec<Bite> = vec![];
    assert_eq!(
        root_readme_content(&none),
        "# Pybites Rust\n\nhttps://rustplatform.com/\n\n\n## Exercises\n\n### Level: intro\n\n### Level: easy\n\n### Level: medium\n\n"
    );
}

#[test]
fn level_section_keeps_record_order() {
    let bites = vec![
        sample_bite("B", "b", "easy"),
        sample_bite("X", "x", "intro"),
        sample_bite("A", "a", "easy"),
    ];
    assert_eq!(
        level_section(&bites, "easy"),
        "### Level: easy\n- [easy/b](easy/b/bite.md)\n- [easy/a](easy/a/bite.md)\n\n"
    );
}

#[test]
fn test_auth_status_message_with_key() {
    let key = Some("abc-123".to_string());
    assert_eq!(auth_status_message(&key), "Authenticating with API key");
}

#[test]
fn test_auth_status_message_without_key() {
    let key: Option<String> = None;
    assert!(auth_status_message(&key).contains("No API key set"));
}

#[test]
fn test_write_all_exercises() {
    let bites = vec![
        sample_bite("Hello", "hello", "intro"),
        sample_bite("Strings", "strings", "easy"),
    ];
    let first = plan_exercise(&bites[0], false, 1_700_000_000);
    let second = plan_exercise(&bites[1], false, 1_700_000_000);
    assert_eq!(first.dir, "intro/hello");
    assert_eq!(second.dir, "easy/strings");
    assert!(first.manifest.contains("name = \"hello\""));
    assert!(second.manifest.contains("name = \"strings\""));
    assert!(first.instructions.starts_with("# Hello\n"));
    assert_eq!(first.starter, "fn main() {}");
    let root_toml = root_toml_content(&bites);
    assert!(root_toml.contains("\"intro/hello\""));
    assert!(root_toml.contains("\"easy/strings\""));
}

#[test]
fn test_write_all_exercises_empty() {
    let bites: Vec<Bite> = vec![];
    assert!(root_toml_content(&bites).contains("members = ["));
    assert!(root_readme_content(&bites).contains("### Level: medium"));
}

#[test]
fn test_write_all_exercises_preserves_existing_work() {
    let bites = vec![sample_bite("Hello", "hello", "intro")];
    let first = plan_exercise(&bites[0], false, 1_700_000_000);
    assert!(first.backup.is_none());
    let again = plan_exercise(&bites[0], true, 1_700_000_005);
    assert_eq!(again.starter, "fn main() {}");
    assert_eq!(again.backup, Some("lib.rs.1700000005".to_string()));
    assert_eq!(again.manifest, first.manifest);
    assert_eq!(again.instructions, first.instructions);
}

#[test]
fn unindexed_level_is_still_planned() {
    let bite = sample_bite("Hard One", "hard-one", "hard");
    let plan = plan_exercise(&bite, false, 5);
    assert_eq!(plan.dir, "hard/hard-one");
    assert!(plan.manifest.contains("name = \"hard-one\""));
}

#[test]
fn decimal_string_values() {
    assert_eq!(decimal_string(0), "0");
    assert_eq!(decimal_string(7), "7");
    assert_eq!(decimal_string(10), "10");
    assert_eq!(decimal_string(1_699_999_999), "1699999999");
    assert_eq!(decimal_string(u64::MAX), "18446744073709551615");
}

#[test]
fn backup_name_appends_seconds() {
    assert_eq!(backup_file_name(1_699_999_999), "lib.rs.1699999999");
    assert_eq!(backup_file_name(0), "lib.rs.0");
}

#[test]
fn plans_do_not_depend_on_credential() {
    let bite = sample_bite("Hello", "hello", "intro");
    let with_key = Some("k".to_string());
    let without: Option<String> = None;
    assert_ne!(auth_status_message(&with_key), auth_status_message(&without));
    let a = plan_exercise(&bite, false, 1);
    let b = plan_exercise(&bite, false, 1);
    assert_eq!(a.manifest, b.manifest);
    assert_eq!(a.instructions, b.instructions);
}

#[test]
fn exercise_dir_joins_level_and_slug() {
    let bite = sample_bite("Hello", "hello", "intro");
    assert_eq!(exercise_dir(&bite), "intro/hello");
    assert_eq!(plan_exercise(&bite, false, 0).dir, exercise_dir(&bite));
}
