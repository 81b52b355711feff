use savhub::ai::{flock_metadata_prompt, metadata_json_text, repo_metadata_prompt, skill_list_text};

fn skill(name: &str, description: &str) -> (String, String) {
    (name.to_string(), description.to_string())
}

#[test]
fn skill_list_lines() {
    let skills = vec![skill("lint", "Checks code"), skill("fmt", "Formats code")];
    assert_eq!(skill_list_text(&skills), "- lint: Checks code\n- fmt: Formats code\n");
    assert_eq!(skill_list_text(&Vec::new()), "");
}

#[test]
fn skill_descriptions_are_cut_at_120_chars() {
    let long = "é".repeat(130);
    let text = skill_list_text(&vec![skill("s", &long)]);
    assert_eq!(text, format!("- s: {}\n", "é".repeat(120)));
}

#[test]
fn skill_list_stops_near_2000_bytes() {
    let desc = "d".repeat(100);
    let skills: Vec<(String, String)> = (0..40).map(|i| skill(&format!("s{i:02}"), &desc)).collect();
    let text = skill_list_text(&skills);
    let line_len = "- s00: ".len() + 100 + 1;
    let fitting = 2000 / line_len;
    assert!(text.ends_with("- ...\n"));
    assert_eq!(text.len(), fitting * line_len + "- ...\n".len());
    assert_eq!(text.lines().count(), fitting + 1);
}

#[test]
fn flock_prompt_layout() {
    let p = flock_metadata_prompt(&vec![skill("lint", "Checks code")], Some("# Readme"));
    assert!(p.starts_with(
        "Given these skills in a flock (a collection of related AI skills):\n\n- lint: Checks code\n"
    ));
    assert!(p.contains("\nHere is the repository README for additional context:\n\n# Readme\n"));
    assert!(p.ends_with("Respond with ONLY the JSON object, no markdown fences."));
    let q = flock_metadata_prompt(&vec![skill("lint", "Checks code")], None);
    assert!(!q.contains("README"));
}

#[test]
fn repo_prompt_layout() {
    let p = repo_metadata_prompt("hello");
    assert!(p.starts_with("Given this README file content:\n\nhello\n\nGenerate a JSON object with:\n"));
    let long = "r".repeat(5000);
    let q = repo_metadata_prompt(&long);
    assert!(q.contains(&"r".repeat(4000)));
    assert!(!q.contains(&"r".repeat(4001)));
}

#[test]
fn metadata_json_is_unfenced() {
    assert_eq!(metadata_json_text("```json\n{\"a\":1}\n```"), "{\"a\":1}");
    assert_eq!(metadata_json_text("  ```\n{}\n```  "), "{}");
    assert_eq!(metadata_json_text("{\"b\":2}"), "{\"b\":2}");
}
