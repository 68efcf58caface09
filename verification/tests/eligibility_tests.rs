use zeroclaw::eligibility::{
    EligibilityContext, SkillGating, SkillOs, SkillRequires, evaluate_skill_eligibility,
    find_binary_in_path,
};

fn ctx() -> EligibilityContext {
    EligibilityContext {
        os: SkillOs::Linux,
        search_dirs: Vec::new(),
        files: Vec::new(),
        env: Vec::new(),
        config_keys: Vec::new(),
    }
}

fn strings(values: &[&str]) -> Vec<String> {
    values.iter().map(|s| s.to_string()).collect()
}

#[test]
fn gating_always_true_overrides_other_requirements() {
    let metadata = SkillGating {
        always: true,
        os: Some(SkillOs::Darwin),
        skill_key: None,
        primary_env: None,
        requires: SkillRequires {
            bins: strings(&["missing-bin"]),
            any_bins: strings(&["missing-a", "missing-b"]),
            env: strings(&["ZEROCLAW_TEST_ENV"]),
            config: strings(&["providers.openai.api_key"]),
        },
    };

    let (eligible, reasons) = evaluate_skill_eligibility(Some(&metadata), &ctx());

    assert!(eligible);
    assert!(reasons.is_empty());
}

#[test]
fn gating_requires_bins_any_bins_and_env() {
    let mut context = ctx();
    context.search_dirs = strings(&["bin"]);
    context.files = strings(&["bin/available"]);
    context.env = vec![("ZEROCLAW_REQUIRED_ENV".to_string(), "set".to_string())];

    let metadata = SkillGating {
        always: false,
        os: Some(SkillOs::Linux),
        skill_key: None,
        primary_env: None,
        requires: SkillRequires {
            bins: strings(&["available"]),
            any_bins: strings(&["missing-one", "available"]),
            env: strings(&["ZEROCLAW_REQUIRED_ENV"]),
            config: Vec::new(),
        },
    };

    let (eligible, reasons) = evaluate_skill_eligibility(Some(&metadata), &context);

    assert!(eligible);
    assert!(reasons.is_empty());
}

#[test]
fn gating_reports_unsupported_config_when_missing() {
    let metadata = SkillGating {
        always: false,
        os: Some(SkillOs::Linux),
        skill_key: None,
        primary_env: None,
        requires: SkillRequires {
            bins: Vec::new(),
            any_bins: Vec::new(),
            env: Vec::new(),
            config: strings(&["skills.experimental.enabled"]),
        },
    };

    let (eligible, reasons) = evaluate_skill_eligibility(Some(&metadata), &ctx());

    assert!(!eligible);
    assert_eq!(reasons.len(), 1);
    assert!(reasons[0].contains("unsupported currently"));
}

#[test]
fn no_gating_metadata_is_eligible() {
    let (eligible, reasons) = evaluate_skill_eligibility(None, &ctx());
    assert!(eligible);
    assert!(reasons.is_empty());
}

#[test]
fn os_mismatch_reason_text() {
    let metadata = SkillGating {
        always: false,
        os: Some(SkillOs::Darwin),
        skill_key: None,
        primary_env: None,
        requires: SkillRequires {
            bins: Vec::new(),
            any_bins: Vec::new(),
            env: Vec::new(),
            config: Vec::new(),
        },
    };
    let (eligible, reasons) = evaluate_skill_eligibility(Some(&metadata), &ctx());
    assert!(!eligible);
    assert_eq!(reasons, vec!["requires os=Darwin, current os=Linux".to_string()]);
}

#[test]
fn missing_binary_and_any_binary_reasons() {
    let metadata = SkillGating {
        always: false,
        os: None,
        skill_key: None,
        primary_env: None,
        requires: SkillRequires {
            bins: strings(&["jq"]),
            any_bins: strings(&["curl", "wget"]),
            env: Vec::new(),
            config: Vec::new(),
        },
    };
    let (eligible, reasons) = evaluate_skill_eligibility(Some(&metadata), &ctx());
    assert!(!eligible);
    assert_eq!(
        reasons,
        vec![
            "missing required binary 'jq' on PATH".to_string(),
            "missing any required binary on PATH (curl, wget)".to_string(),
        ]
    );
}

#[test]
fn blank_env_value_is_missing() {
    let mut context = ctx();
    context.env = vec![("ZEROCLAW_BLANK".to_string(), "   ".to_string())];
    let metadata = SkillGating {
        always: false,
        os: None,
        skill_key: None,
        primary_env: None,
        requires: SkillRequires {
            bins: Vec::new(),
            any_bins: Vec::new(),
            env: strings(&["ZEROCLAW_BLANK"]),
            config: Vec::new(),
        },
    };
    let (eligible, reasons) = evaluate_skill_eligibility(Some(&metadata), &ctx());
    assert!(!eligible);
    let (eligible_blank, reasons_blank) = evaluate_skill_eligibility(Some(&metadata), &context);
    assert!(!eligible_blank);
    assert_eq!(reasons, reasons_blank);
    assert_eq!(reasons_blank, vec!["missing required env 'ZEROCLAW_BLANK'".to_string()]);
}

#[test]
fn config_key_in_snapshot_satisfies_requirement() {
    let mut context = ctx();
    context.config_keys = strings(&["skills.experimental.enabled"]);
    let metadata = SkillGating {
        always: false,
        os: None,
        skill_key: None,
        primary_env: None,
        requires: SkillRequires {
            bins: Vec::new(),
            any_bins: Vec::new(),
            env: Vec::new(),
            config: strings(&["skills.experimental.enabled"]),
        },
    };
    let (eligible, reasons) = evaluate_skill_eligibility(Some(&metadata), &context);
    assert!(eligible);
    assert!(reasons.is_empty());
}

#[test]
fn binary_with_separator_is_probed_literally() {
    let mut context = ctx();
    context.files = strings(&["/usr/local/bin/tool"]);
    assert!(find_binary_in_path("/usr/local/bin/tool", &context));
    assert!(!find_binary_in_path("/usr/bin/tool", &context));
    assert!(!find_binary_in_path("  ", &context));
}
