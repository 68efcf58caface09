use std::collections::HashMap;
use zeroclaw::skill::{Skill, SkillTool};
use zeroclaw::prompt::skills_to_prompt;
use zeroclaw::runmode::render_skill_body;

fn bare_skill(name: &str, description: &str, version: &str) -> Skill {
    Skill {
        name: name.to_string(),
        description: description.to_string(),
        version: version.to_string(),
        author: None,
        tags: vec![],
        tools: vec![],
        prompts: vec![],
        eligible: true,
        ineligible_reasons: Vec::new(),
        location: None,
        skill_key: name.to_string(),
        primary_env: None,
        requires_env: vec![],
    }
}

#[test]
fn skills_to_prompt_empty() {
    let prompt = skills_to_prompt(&Vec::new());
    assert!(prompt.is_empty());
}

#[test]
fn skills_to_prompt_with_skills() {
    let mut skill = bare_skill("test", "A test", "1.0.0");
    skill.prompts = vec!["Do the thing.".to_string()];
    let skills = vec![skill];
    let prompt = skills_to_prompt(&skills);
    assert!(prompt.contains("test"));
    assert!(prompt.contains("Do the thing"));
}

#[test]
fn skills_to_prompt_includes_tools() {
    let mut skill = bare_skill("weather", "Get weather", "1.0.0");
    skill.tools = vec![SkillTool {
        name: "get_weather".to_string(),
        description: "Fetch forecast".to_string(),
        kind: "shell".to_string(),
        command: "curl wttr.in".to_string(),
        args: HashMap::new(),
    }];
    let skills = vec![skill];
    let prompt = skills_to_prompt(&skills);
    assert!(prompt.contains("weather"));
    assert!(prompt.contains("get_weather"));
    assert!(prompt.contains("Fetch forecast"));
    assert!(prompt.contains("shell"));
}

#[test]
fn skills_to_prompt_exact_block() {
    let mut skill = bare_skill("demo", "Just a demo", "0.2.0");
    skill.prompts = vec!["Follow these steps.".to_string()];
    let prompt = skills_to_prompt(&vec![skill]);
    assert_eq!(
        prompt,
        "\n## Active Skills\n\n### demo (v0.2.0)\nJust a demo\nFollow these steps.\n\n"
    );
}

#[test]
fn render_skill_body_substitutes_base_dir() {
    let rendered = render_skill_body("Root: {baseDir}", "/tmp/skill");
    assert_eq!(rendered, "Root: /tmp/skill");
}

#[test]
fn render_skill_body_substitutes_every_occurrence() {
    let rendered = render_skill_body("{baseDir}/a and {baseDir}/b", "/s");
    assert_eq!(rendered, "/s/a and /s/b");
}
