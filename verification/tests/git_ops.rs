use savhub::git_ops::{
    collect_skill_candidates, collect_skill_markdown_files, derive_skill_slug,
    extract_markdown_heading, extract_summary, frontmatter_text, frontmatter_value,
    is_decorative_line, is_skill_markdown_path, join_relative_dir, parse_changed_skill_markdown_paths,
    parse_git_redirect, parse_skill_markdown_metadata, sanitize_skill_slug, select_markdown_file,
    should_skip_dir, skill_markdown_path, DirNode,
};
use savhub::git_url::cached_repo_dir;
use savhub::json::Json;

fn to_json(v: serde_json::Value) -> Json {
    match v {
        serde_json::Value::Null => Json::Null,
        serde_json::Value::Bool(b) => Json::Bool(b),
        serde_json::Value::Number(n) => Json::Number(n.to_string()),
        serde_json::Value::String(s) => Json::Str(s),
        serde_json::Value::Array(a) => Json::Array(a.into_iter().map(to_json).collect()),
        serde_json::Value::Object(o) => {
            Json::Object(o.into_iter().map(|(k, v)| (k, to_json(v))).collect())
        }
    }
}

fn parse_frontmatter(markdown: &str) -> Json {
    let (yaml, framed) = frontmatter_text(markdown);
    let parsed = serde_saphyr::from_str::<serde_json::Value>(&yaml).ok().map(to_json);
    frontmatter_value(framed, parsed)
}

fn dir(name: &str, has_skill_md: bool, subdirs: Vec<DirNode>) -> DirNode {
    DirNode { name: name.to_string(), has_skill_md, subdirs }
}

#[test]
fn cached_repo_dir_is_stable_per_url() {
    let a = cached_repo_dir("repos", "https://github.com/acme/skills.git");
    let b = cached_repo_dir("repos", "https://github.com/acme/skills.git");
    let c = cached_repo_dir("repos", "https://github.com/acme/other.git");
    assert_eq!(a, b);
    assert_ne!(a, c);
    assert_eq!(a, "repos/github.com/acme/skills");
}

#[test]
fn parse_changed_skill_markdown_paths_handles_edits_and_renames() {
    let stdout = "\
M\tskills/python/SKILL.md\n\
R100\ttools/old/SKILL.md\ttools/new/SKILL.md\n\
D\tREADME.md\n";
    let paths = parse_changed_skill_markdown_paths(stdout);
    assert_eq!(
        paths,
        vec![
            "skills/python/SKILL.md".to_string(),
            "tools/new/SKILL.md".to_string(),
            "tools/old/SKILL.md".to_string(),
        ]
    );
}

#[test]
fn changed_paths_are_deduplicated_and_slashed() {
    let stdout = "M\tb/SKILL.md\nM\tb/SKILL.md\n\nA\ta/SKILL.md\nM\tc\\SKILL.md\nX\ty/SKILL.md\tz\tw\n";
    let paths = parse_changed_skill_markdown_paths(stdout);
    assert_eq!(paths, vec!["a/SKILL.md".to_string(), "b/SKILL.md".to_string()]);
}

#[test]
fn parse_skill_markdown_metadata_reads_frontmatter_without_meta_toml() {
    let markdown = "---\nname: Prompt Crafter\ndescription: Build prompts from templates.\n---\n# Prompt Crafter\n";
    let parsed = parse_frontmatter(markdown);
    let metadata = parse_skill_markdown_metadata("skills/prompt-crafter", "tools", markdown, &parsed)
        .expect("parse markdown");
    assert_eq!(metadata.name, "Prompt Crafter");
    assert_eq!(metadata.description, "Build prompts from templates.");
}

#[test]
fn parse_skill_markdown_metadata_falls_back_to_heading_and_body() {
    let markdown = "# Shell Runner\n\nExecute shell tasks safely.\n";
    let parsed = parse_frontmatter(markdown);
    let metadata =
        parse_skill_markdown_metadata(".", "shell-runner", markdown, &parsed).expect("parse markdown");
    assert_eq!(metadata.name, "Shell Runner");
    assert_eq!(metadata.description, "Execute shell tasks safely.");
}

#[test]
fn metadata_errors_name_the_directory() {
    let empty = Json::Object(Vec::new());
    let err = parse_skill_markdown_metadata("skills/x", "f", "just text", &empty).unwrap_err();
    assert_eq!(
        err,
        "`skills/x` must define a non-empty `name` in SKILL.md frontmatter or a markdown heading"
    );
    let err = parse_skill_markdown_metadata("skills/x", "f", "# Title\n", &empty).unwrap_err();
    assert_eq!(
        err,
        "`skills/x` must define a non-empty `description` in SKILL.md frontmatter or body"
    );
    let err = parse_skill_markdown_metadata("x/!!!", "f", "# ???\nbody\n", &empty).unwrap_err();
    assert_eq!(
        err,
        "`x/!!!` did not produce a valid skill slug from its directory name or SKILL.md"
    );
}

#[test]
fn metadata_reads_trimmed_version() {
    let markdown = "---\nname: A\ndescription: B\nversion: \" 1.2 \"\n---\n";
    let parsed = parse_frontmatter(markdown);
    let m = parse_skill_markdown_metadata("a", "f", markdown, &parsed).unwrap();
    assert_eq!(m.version, Some("1.2".to_string()));
}

#[test]
fn unframed_frontmatter_counts_only_as_mapping() {
    assert!(matches!(parse_frontmatter("name: x\n"), Json::Object(ref o) if o.len() == 1));
    assert!(matches!(parse_frontmatter("# heading\n"), Json::Object(ref o) if o.is_empty()));
    let (yaml, framed) = frontmatter_text("\u{feff}---\nname: y\n---\nbody");
    assert_eq!(yaml, "name: y");
    assert!(framed);
}

#[test]
fn slugs_are_sanitized() {
    assert_eq!(sanitize_skill_slug("  Prompt Crafter! "), "prompt-crafter");
    assert_eq!(sanitize_skill_slug("--A__B--"), "a-b");
    assert_eq!(sanitize_skill_slug("Été 2024"), "t-2024");
    assert_eq!(sanitize_skill_slug("!!!"), "");
}

#[test]
fn derived_slug_prefers_frontmatter_then_directory_then_name() {
    let with_slug = Json::Object(vec![("slug".to_string(), Json::Str("My Slug".to_string()))]);
    let empty = Json::Object(Vec::new());
    assert_eq!(derive_skill_slug("a/b", "f", "n", &with_slug), Some("my-slug".to_string()));
    assert_eq!(derive_skill_slug("a/Dir Name", "f", "n", &empty), Some("dir-name".to_string()));
    assert_eq!(derive_skill_slug(".", "Flock", "n", &empty), Some("flock".to_string()));
    assert_eq!(derive_skill_slug("a/!!", "f", "The Name", &empty), Some("the-name".to_string()));
    assert_eq!(derive_skill_slug("a/!!", "f", "??", &empty), None);
}

#[test]
fn headings_skip_decorations() {
    assert_eq!(extract_markdown_heading("text\n# ====\n## Real Title \n"), Some("Real Title".to_string()));
    assert_eq!(extract_markdown_heading("no heading"), None);
    assert!(is_decorative_line("  ===== "));
    assert!(is_decorative_line("*-_~#"));
    assert!(!is_decorative_line("   "));
    assert!(!is_decorative_line("== a =="));
}

#[test]
fn summary_prefers_description() {
    let parsed = Json::Object(vec![("description".to_string(), Json::Str("  Desc  ".to_string()))]);
    assert_eq!(extract_summary(&parsed, "line"), Some("Desc".to_string()));
    let empty = Json::Object(Vec::new());
    assert_eq!(extract_summary(&empty, "---\n# Title\n\n  First line  \n"), Some("First line".to_string()));
    assert_eq!(extract_summary(&empty, "# only\n"), None);
}

#[test]
fn redirects_are_read_from_stderr() {
    let stderr = b"Cloning into 'x'...\nwarning: redirecting to https://github.com/new/repo.git/\n";
    assert_eq!(parse_git_redirect(stderr), Some("https://github.com/new/repo.git".to_string()));
    assert_eq!(parse_git_redirect(b"warning: redirecting to  /// \n"), None);
    assert_eq!(parse_git_redirect(b"nothing here"), None);
}

#[test]
fn paths_and_directories() {
    assert!(should_skip_dir(".hidden"));
    assert!(should_skip_dir("node_modules"));
    assert!(should_skip_dir("target"));
    assert!(!should_skip_dir("skills"));
    assert_eq!(join_relative_dir(".", "a"), "a");
    assert_eq!(join_relative_dir("a", "b"), "a/b");
    assert_eq!(skill_markdown_path("."), "SKILL.md");
    assert_eq!(skill_markdown_path("a/b"), "a/b/SKILL.md");
    assert!(is_skill_markdown_path("SKILL.md"));
    assert!(is_skill_markdown_path("x/SKILL.md"));
    assert!(!is_skill_markdown_path("xSKILL.md"));
}

#[test]
fn nested_skills_are_found_without_the_root() {
    let root = dir(
        "repo",
        true,
        vec![
            dir("skills", false, vec![dir("python", true, vec![]), dir("rust", true, vec![])]),
            dir(".git", true, vec![]),
            dir("node_modules", true, vec![]),
        ],
    );
    let mut out = Vec::new();
    collect_skill_candidates(&root, ".", &mut out);
    assert_eq!(out, vec!["skills/python".to_string(), "skills/rust".to_string()]);
    let lone = dir("repo", true, vec![dir("docs", false, vec![])]);
    let mut out = Vec::new();
    collect_skill_candidates(&lone, ".", &mut out);
    assert_eq!(out, vec![".".to_string()]);
}

#[test]
fn skill_markdown_files_are_sorted() {
    let root = dir("repo", false, vec![dir("zeta", true, vec![]), dir("alpha", true, vec![])]);
    assert_eq!(
        collect_skill_markdown_files(&root),
        vec!["alpha/SKILL.md".to_string(), "zeta/SKILL.md".to_string()]
    );
}

#[test]
fn markdown_file_selection() {
    let paths = vec!["README.md".to_string(), "skill.MD".to_string(), "x.txt".to_string()];
    assert_eq!(select_markdown_file(&paths, "SKILL.md"), Some(1));
    let paths = vec!["x.txt".to_string(), "notes.md".to_string()];
    assert_eq!(select_markdown_file(&paths, "SKILL.md"), Some(1));
    assert_eq!(select_markdown_file(&vec!["a".to_string()], "SKILL.md"), None);
}

#[test]
fn collect_skill_candidates_finds_nested_skill_directories() {
    // The checkout holds skills/python/SKILL.md and nothing else.
    let root = dir(
        "root",
        false,
        vec![dir("skills", false, vec![dir("python", true, vec![])])],
    );
    let mut candidates = Vec::new();
    collect_skill_candidates(&root, ".", &mut candidates);
    assert_eq!(candidates.len(), 1);
    assert_eq!(candidates[0], "skills/python");
}
