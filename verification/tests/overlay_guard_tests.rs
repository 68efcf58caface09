use zeroclaw::envguard::{EnvMap, apply_env_overrides_for_run, restore_env_overrides};
use zeroclaw::overlay::{SkillEntryConfig, SkillsConfig, is_skill_enabled, load_skills_for_run};
use zeroclaw::skill::Skill;

fn skill_with_key(key: &str) -> Skill {
    Skill {
        name: key.to_string(),
        description: "test".to_string(),
        version: "0.1.0".to_string(),
        author: None,
        tags: vec![],
        tools: vec![],
        prompts: vec![],
        eligible: true,
        ineligible_reasons: Vec::new(),
        location: None,
        skill_key: key.to_string(),
        primary_env: None,
        requires_env: vec![],
    }
}

fn entry(enabled: Option<bool>, api_key: Option<&str>, env: &[(&str, &str)]) -> SkillEntryConfig {
    SkillEntryConfig {
        enabled,
        api_key: api_key.map(str::to_string),
        env: env.iter().map(|(k, v)| (k.to_string(), v.to_string())).collect(),
    }
}

#[test]
fn explicit_false_disables_even_with_requirements_met() {
    let skill = skill_with_key("mapped");
    let entries = vec![("mapped".to_string(), entry(Some(false), None, &[]))];
    let env: Vec<(String, String)> = Vec::new();
    // the skill requires nothing, so requirements are trivially met
    assert!(!is_skill_enabled(&skill, &entries, &env));
}

#[test]
fn absent_flag_requires_satisfiable_env() {
    let mut skill = skill_with_key("needy");
    skill.requires_env = vec!["NEEDY_KEY".to_string()];
    let env: Vec<(String, String)> = Vec::new();

    // nothing supplies the variable
    assert!(!is_skill_enabled(&skill, &Vec::new(), &env));

    // the real environment supplies it
    let set_env = vec![("NEEDY_KEY".to_string(), "v".to_string())];
    assert!(is_skill_enabled(&skill, &Vec::new(), &set_env));

    // the overlay's explicit map supplies it
    let entries = vec![("needy".to_string(), entry(None, None, &[("NEEDY_KEY", "v")]))];
    assert!(is_skill_enabled(&skill, &entries, &env));

    // the API key supplies it through the primary variable
    skill.primary_env = Some("NEEDY_KEY".to_string());
    let keyed = vec![("needy".to_string(), entry(None, None, &[]))];
    assert!(!is_skill_enabled(&skill, &keyed, &env));
    let keyed = vec![("needy".to_string(), entry(None, Some("SECRET-REDACTED"), &[]))];
    assert!(is_skill_enabled(&skill, &keyed, &env));
}

#[test]
fn explicit_true_still_requires_env() {
    let mut skill = skill_with_key("hopeful");
    skill.requires_env = vec!["HOPEFUL_KEY".to_string()];
    let entries = vec![("hopeful".to_string(), entry(Some(true), None, &[]))];
    let env: Vec<(String, String)> = Vec::new();
    assert!(!is_skill_enabled(&skill, &entries, &env));
}

#[test]
fn run_filter_keeps_only_enabled_skills() {
    let enabled = skill_with_key("on");
    let disabled = skill_with_key("off");
    let config = SkillsConfig {
        entries: vec![("off".to_string(), entry(Some(false), None, &[]))],
    };
    let env: Vec<(String, String)> = Vec::new();
    let kept = load_skills_for_run(vec![enabled, disabled], &config, &env);
    assert_eq!(kept.len(), 1);
    assert_eq!(kept[0].skill_key, "on");
}

#[test]
fn api_key_injected_and_removed_on_restore() {
    let mut skill = skill_with_key("keyed");
    skill.primary_env = Some("KEYED_API_KEY".to_string());
    let config = SkillsConfig {
        entries: vec![("keyed".to_string(), entry(None, Some("SECRET-REDACTED"), &[]))],
    };
    let mut env = EnvMap { pairs: Vec::new() };
    assert!(env.get("KEYED_API_KEY").is_none());

    let guard = apply_env_overrides_for_run(&mut env, &vec![skill], &config);
    assert_eq!(env.get("KEYED_API_KEY").map(String::as_str), Some("SECRET-REDACTED"));

    restore_env_overrides(&mut env, &guard);
    assert!(env.get("KEYED_API_KEY").is_none());
}

#[test]
fn pre_existing_value_left_untouched() {
    let mut skill = skill_with_key("keyed2");
    skill.primary_env = Some("KEYED2_API_KEY".to_string());
    let config = SkillsConfig {
        entries: vec![("keyed2".to_string(), entry(None, Some("SECRET-REDACTED"), &[]))],
    };
    let mut env = EnvMap {
        pairs: vec![("KEYED2_API_KEY".to_string(), "original".to_string())],
    };

    let guard = apply_env_overrides_for_run(&mut env, &vec![skill], &config);
    assert_eq!(env.get("KEYED2_API_KEY").map(String::as_str), Some("original"));

    restore_env_overrides(&mut env, &guard);
    assert_eq!(env.get("KEYED2_API_KEY").map(String::as_str), Some("original"));
}

#[test]
fn explicit_env_map_injected_and_restored() {
    let skill = skill_with_key("envy");
    let config = SkillsConfig {
        entries: vec![(
            "envy".to_string(),
            entry(None, None, &[("ENVY_A", "1"), ("ENVY_B", "2")]),
        )],
    };
    let mut env = EnvMap {
        pairs: vec![("ENVY_B".to_string(), "kept".to_string())],
    };

    let guard = apply_env_overrides_for_run(&mut env, &vec![skill], &config);
    assert_eq!(env.get("ENVY_A").map(String::as_str), Some("1"));
    assert_eq!(env.get("ENVY_B").map(String::as_str), Some("kept"));

    restore_env_overrides(&mut env, &guard);
    assert!(env.get("ENVY_A").is_none());
    assert_eq!(env.get("ENVY_B").map(String::as_str), Some("kept"));
}

#[test]
fn skill_without_entry_injects_nothing() {
    let skill = skill_with_key("plain");
    let config = SkillsConfig { entries: Vec::new() };
    let mut env = EnvMap { pairs: Vec::new() };
    let guard = apply_env_overrides_for_run(&mut env, &vec![skill], &config);
    assert!(guard.captured.is_empty());
    assert!(env.pairs.is_empty());
}
