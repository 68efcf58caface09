use zeroclaw::discovery::{SkillDirEntry, OpenSkillFile, load_skills, load_skills_from_directory, load_open_skills, skills_dir, workspace_config_path};
use zeroclaw::eligibility::{EligibilityContext, SkillOs};

fn ctx() -> EligibilityContext {
    EligibilityContext {
        os: SkillOs::Linux,
        search_dirs: Vec::new(),
        files: Vec::new(),
        env: Vec::new(),
        config_keys: Vec::new(),
    }
}

fn dir_entry(name: &str, toml: Option<&str>, md: Option<&str>) -> SkillDirEntry {
    SkillDirEntry {
        dir_name: name.to_string(),
        dir_path: format!("skills/{name}"),
        toml_manifest: toml.map(str::to_string),
        md_manifest: md.map(str::to_string),
    }
}

#[test]
fn load_empty_skills_dir() {
    let skills = load_skills(&Vec::new(), &Vec::new(), &ctx());
    assert!(skills.is_empty());
}

#[test]
fn load_nonexistent_dir() {
    let skills = load_skills(&Vec::new(), &Vec::new(), &ctx());
    assert!(skills.is_empty());
}

#[test]
fn load_skill_from_toml() {
    let entries = vec![dir_entry(
        "test-skill",
        Some(
            r#"
[skill]
name = "test-skill"
description = "A test skill"
version = "1.0.0"
tags = ["test"]

[[tools]]
name = "hello"
description = "Says hello"
kind = "shell"
command = "echo hello"
"#,
        ),
        None,
    )];
    let skills = load_skills(&Vec::new(), &entries, &ctx());
    assert_eq!(skills.len(), 1);
    assert_eq!(skills[0].name, "test-skill");
    assert_eq!(skills[0].tools.len(), 1);
    assert_eq!(skills[0].tools[0].name, "hello");
}

#[test]
fn load_skill_from_md() {
    let entries = vec![dir_entry("md-skill", None, Some("# My Skill\nThis skill does cool things.\n"))];
    let skills = load_skills(&Vec::new(), &entries, &ctx());
    assert_eq!(skills.len(), 1);
    assert_eq!(skills[0].name, "md-skill");
    assert!(skills[0].description.contains("cool things"));
}

#[test]
fn load_ignores_dir_without_manifest() {
    let entries = vec![dir_entry("empty-skill", None, None)];
    let skills = load_skills(&Vec::new(), &entries, &ctx());
    assert!(skills.is_empty());
}

#[test]
fn load_multiple_skills() {
    let mut entries = Vec::new();
    for name in ["alpha", "beta", "gamma"] {
        entries.push(dir_entry(name, None, Some(&format!("# {name}\nSkill {name} description.\n"))));
    }
    let skills = load_skills(&Vec::new(), &entries, &ctx());
    assert_eq!(skills.len(), 3);
}

#[test]
fn toml_skill_with_multiple_tools() {
    let entries = vec![dir_entry(
        "multi-tool",
        Some(
            r#"
[skill]
name = "multi-tool"
description = "Has many tools"
version = "2.0.0"
author = "tester"
tags = ["automation", "devops"]

[[tools]]
name = "build"
description = "Build the project"
kind = "shell"
command = "cargo build"

[[tools]]
name = "test"
description = "Run tests"
kind = "shell"
command = "cargo test"

[[tools]]
name = "deploy"
description = "Deploy via HTTP"
kind = "http"
command = "https://api.example.com/deploy"
"#,
        ),
        None,
    )];
    let skills = load_skills(&Vec::new(), &entries, &ctx());
    assert_eq!(skills.len(), 1);
    let s = &skills[0];
    assert_eq!(s.name, "multi-tool");
    assert_eq!(s.version, "2.0.0");
    assert_eq!(s.author.as_deref(), Some("tester"));
    assert_eq!(s.tags, vec!["automation", "devops"]);
    assert_eq!(s.tools.len(), 3);
    assert_eq!(s.tools[0].name, "build");
    assert_eq!(s.tools[1].kind, "shell");
    assert_eq!(s.tools[2].kind, "http");
}

#[test]
fn toml_skill_minimal() {
    let entries = vec![dir_entry(
        "minimal",
        Some("\n[skill]\nname = \"minimal\"\ndescription = \"Bare minimum\"\n"),
        None,
    )];
    let skills = load_skills(&Vec::new(), &entries, &ctx());
    assert_eq!(skills.len(), 1);
    assert_eq!(skills[0].version, "0.1.0"); // default version
    assert!(skills[0].author.is_none());
    assert!(skills[0].tags.is_empty());
    assert!(skills[0].tools.is_empty());
}

#[test]
fn toml_skill_invalid_syntax_skipped() {
    let entries = vec![dir_entry("broken", Some("this is not valid toml {{{{"), None)];
    let skills = load_skills(&Vec::new(), &entries, &ctx());
    assert!(skills.is_empty()); // broken skill is skipped
}

#[test]
fn md_skill_heading_only() {
    let entries = vec![dir_entry("heading-only", None, Some("# Just a Heading\n"))];
    let skills = load_skills(&Vec::new(), &entries, &ctx());
    assert_eq!(skills.len(), 1);
    assert_eq!(skills[0].description, "No description");
}

#[test]
fn toml_prefers_over_md() {
    let entries = vec![dir_entry(
        "dual",
        Some("[skill]\nname = \"from-toml\"\ndescription = \"TOML wins\"\n"),
        Some("# From MD\nMD description\n"),
    )];
    let skills = load_skills(&Vec::new(), &entries, &ctx());
    assert_eq!(skills.len(), 1);
    assert_eq!(skills[0].name, "from-toml"); // TOML takes priority
}

#[test]
fn broken_toml_does_not_abort_scan_of_others() {
    let entries = vec![
        dir_entry("broken", Some("not toml at all ["), None),
        dir_entry("fine", None, Some("# Fine\nWorks.\n")),
    ];
    let skills = load_skills_from_directory(&entries, &ctx());
    assert_eq!(skills.len(), 1);
    assert_eq!(skills[0].name, "fine");
}

#[test]
fn toml_gating_skill_key_and_requires() {
    let entries = vec![dir_entry(
        "gated",
        Some(
            r#"
[skill]
name = "gated"
description = "Needs a key"

[metadata.openclaw]
skill_key = "gated-key"
primary_env = "GATED_API_KEY"

[metadata.openclaw.requires]
env = ["GATED_API_KEY"]
"#,
        ),
        None,
    )];
    let skills = load_skills_from_directory(&entries, &ctx());
    assert_eq!(skills.len(), 1);
    assert_eq!(skills[0].skill_key, "gated-key");
    assert_eq!(skills[0].primary_env.as_deref(), Some("GATED_API_KEY"));
    assert_eq!(skills[0].requires_env, vec!["GATED_API_KEY"]);
    assert!(!skills[0].eligible); // the variable is absent from the snapshot
}

#[test]
fn open_skills_skip_readme_and_non_markdown() {
    let files = vec![
        OpenSkillFile {
            file_name: "README.md".to_string(),
            path: "open/README.md".to_string(),
            content: "# readme\nabout\n".to_string(),
        },
        OpenSkillFile {
            file_name: "notes.txt".to_string(),
            path: "open/notes.txt".to_string(),
            content: "text".to_string(),
        },
        OpenSkillFile {
            file_name: "Weather.MD".to_string(),
            path: "open/Weather.MD".to_string(),
            content: "# Weather\nForecasts on demand.\n".to_string(),
        },
    ];
    let skills = load_open_skills(&files);
    assert_eq!(skills.len(), 1);
    assert_eq!(skills[0].name, "Weather");
    assert_eq!(skills[0].version, "open-skills");
    assert_eq!(skills[0].author.as_deref(), Some("besoeasy/open-skills"));
    assert_eq!(skills[0].tags, vec!["open-skills"]);
    assert_eq!(skills[0].description, "Forecasts on demand.");
}

#[test]
fn remote_skills_come_before_workspace_skills() {
    let files = vec![OpenSkillFile {
        file_name: "remote.md".to_string(),
        path: "open/remote.md".to_string(),
        content: "# Remote\nRemote skill.\n".to_string(),
    }];
    let entries = vec![dir_entry("local", None, Some("# Local\nLocal skill.\n"))];
    let skills = load_skills(&files, &entries, &ctx());
    assert_eq!(skills.len(), 2);
    assert_eq!(skills[0].name, "remote");
    assert_eq!(skills[1].name, "local");
}

#[test]
fn skills_dir_path() {
    let dir = skills_dir("/home/user/.zeroclaw");
    assert_eq!(dir, "/home/user/.zeroclaw/skills");
}

#[test]
fn workspace_config_sits_beside_workspace() {
    assert_eq!(workspace_config_path("/home/user/.zeroclaw/workspace"), "/home/user/.zeroclaw/config.toml");
    assert_eq!(workspace_config_path("workspace"), "config.toml");
    assert_eq!(workspace_config_path("/workspace"), "/config.toml");
}
