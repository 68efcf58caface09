use zeroclaw::frontmatter::{FrontmatterError, parse_skill_md_content};
use zeroclaw::runmode::{
    SkillRunMode, parse_skill_frontmatter_and_body, prepare_skill_invocation, is_safe_skill_name,
    resolve_eligible_skill_dir,
};
use zeroclaw::scan::{SkillScanFile, scan_skills};

#[test]
fn parse_valid_skill_md() {
    let parsed = parse_skill_md_content(
        r#"---
name: test_skill
description: A test skill
metadata: {"category":"build","priority":1}
extra: ignored
---
# Body
"#,
    )
    .expect("frontmatter should parse");

    assert_eq!(parsed.name, "test_skill");
    assert_eq!(parsed.description, "A test skill");
    let metadata: serde_json::Value =
        serde_json::from_str(&parsed.metadata.unwrap()).expect("stored metadata is JSON");
    assert_eq!(metadata["category"], "build");
}

#[test]
fn parse_invalid_or_missing_frontmatter() {
    let missing = parse_skill_md_content("name: nope\n");
    assert!(missing.is_err());

    let unclosed = parse_skill_md_content("---\nname: a\ndescription: b\n");
    assert!(unclosed.is_err());
}

#[test]
fn metadata_must_be_valid_json() {
    let invalid = parse_skill_md_content("---\nname: x\ndescription: y\nmetadata: {invalid json}\n---\n");
    assert!(invalid.is_err());

    let not_object = parse_skill_md_content("---\nname: x\ndescription: y\nmetadata: [1,2,3]\n---\n");
    assert!(not_object.is_err());
}

#[test]
fn frontmatter_error_variants() {
    assert_eq!(
        parse_skill_md_content("no delimiters"),
        Err(FrontmatterError::MissingStartDelimiter)
    );
    assert_eq!(
        parse_skill_md_content("---\nname: a\ndescription: b\n"),
        Err(FrontmatterError::MissingEndDelimiter)
    );
    assert_eq!(
        parse_skill_md_content("---\nname: x\ndescription: y\nmetadata: {bad\n---\n"),
        Err(FrontmatterError::InvalidMetadataJson)
    );
    assert_eq!(
        parse_skill_md_content("---\nname: x\ndescription: y\nmetadata: [1,2,3]\n---\n"),
        Err(FrontmatterError::MetadataNotObject)
    );
    assert_eq!(
        parse_skill_md_content("---\ndescription: y\n---\n"),
        Err(FrontmatterError::MissingName)
    );
    assert_eq!(
        parse_skill_md_content("---\nname: x\n---\n"),
        Err(FrontmatterError::MissingDescription)
    );
    assert_eq!(
        parse_skill_md_content("---\nname:\ndescription: y\n---\n"),
        Err(FrontmatterError::MissingName)
    );
}

#[test]
fn parse_frontmatter_routes_to_tool_dispatch() {
    let content = "---\ncommand-dispatch: tool\ncommand-tool: schedule\n---\n# Body";
    let (frontmatter, body) = parse_skill_frontmatter_and_body(content);
    assert_eq!(frontmatter.command_dispatch.as_deref(), Some("tool"));
    assert_eq!(frontmatter.command_tool.as_deref(), Some("schedule"));
    assert_eq!(body, "# Body");
}

#[test]
fn frontmatter_values_lose_their_quotes() {
    let content = "---\ncommand-dispatch: \"tool\"\ncommand-tool: 'fix'\n---\nbody";
    let (frontmatter, _) = parse_skill_frontmatter_and_body(content);
    assert_eq!(frontmatter.command_dispatch.as_deref(), Some("tool"));
    assert_eq!(frontmatter.command_tool.as_deref(), Some("fix"));
}

#[test]
fn document_without_frontmatter_is_all_body() {
    let (frontmatter, body) = parse_skill_frontmatter_and_body("# Hello\ntext");
    assert!(frontmatter.command_dispatch.is_none());
    assert!(frontmatter.command_tool.is_none());
    assert_eq!(body, "# Hello\ntext");
}

#[test]
fn prepare_invocation_dispatches_or_prompts() {
    let dispatch = prepare_skill_invocation(
        "---\ncommand-dispatch: tool\ncommand-tool: schedule\n---\n# Body",
        "/tmp/s",
    );
    assert_eq!(
        dispatch,
        Ok(SkillRunMode::ToolDispatch { tool_name: "schedule".to_string() })
    );

    let missing_tool = prepare_skill_invocation("---\ncommand-dispatch: tool\n---\nbody", "/tmp/s");
    assert!(missing_tool.is_err());

    let prompt = prepare_skill_invocation("Use {baseDir} here", "/tmp/s");
    assert_eq!(
        prompt,
        Ok(SkillRunMode::PromptOnly { instructions: "Use /tmp/s here".to_string() })
    );
}

#[test]
fn unsafe_skill_names_are_rejected() {
    assert!(is_safe_skill_name("weather"));
    assert!(!is_safe_skill_name("../escape"));
    assert!(!is_safe_skill_name("a/b"));
    assert!(!is_safe_skill_name("a\\b"));
    assert!(resolve_eligible_skill_dir("/ws", "..").is_err());
    assert_eq!(
        resolve_eligible_skill_dir("/ws", "weather"),
        Ok("/ws/skills/weather".to_string())
    );
}

#[test]
fn scan_sorts_and_parses_strictly() {
    let files = vec![
        SkillScanFile {
            skill_dir: "skills/zeta".to_string(),
            skill_md_path: "skills/zeta/SKILL.md".to_string(),
            content: "---\nname: zeta\ndescription: Last\n---\n".to_string(),
        },
        SkillScanFile {
            skill_dir: "skills/alpha".to_string(),
            skill_md_path: "skills/alpha/SKILL.md".to_string(),
            content: "---\nname: alpha\ndescription: First\n---\n".to_string(),
        },
    ];
    let parsed = scan_skills(files).expect("both files parse");
    assert_eq!(parsed.len(), 2);
    assert_eq!(parsed[0].frontmatter.name, "alpha");
    assert_eq!(parsed[1].frontmatter.name, "zeta");
    assert!(parsed[0].eligible);
    assert_eq!(parsed[0].reason, "");
}

#[test]
fn scan_aborts_on_a_malformed_file() {
    let files = vec![
        SkillScanFile {
            skill_dir: "skills/good".to_string(),
            skill_md_path: "skills/good/SKILL.md".to_string(),
            content: "---\nname: good\ndescription: Fine\n---\n".to_string(),
        },
        SkillScanFile {
            skill_dir: "skills/bad".to_string(),
            skill_md_path: "skills/bad/SKILL.md".to_string(),
            content: "name: bad\n".to_string(),
        },
    ];
    assert_eq!(scan_skills(files), Err(FrontmatterError::MissingStartDelimiter));
}
