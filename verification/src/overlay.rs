//! The configuration overlay: user-supplied per-skill settings, keyed by
//! the skill key, and the enablement decision they yield.  An explicit
//! `enabled = false` always disables a skill; otherwise the skill's
//! declared required environment variables must each be satisfiable from
//! the environment snapshot, the entry's explicit variable map, or — for
//! the skill's primary variable — the entry's API key.
//!
//! This decision is the authoritative one for a run.  The gating
//! evaluator's verdict annotates a discovered skill with its
//! `eligible` flag and reasons, but only the overlay decides which
//! skills the run keeps.

use vstd::prelude::*;
use crate::eligibility::env_get;
use crate::skill::Skill;

verus! {

/// One skill's overlay entry in the user configuration.
#[derive(Debug, Clone)]
pub struct SkillEntryConfig {
    /// The explicit enable flag, when the user set one.
    pub enabled: Option<bool>,
    /// The API key to inject under the skill's primary variable.
    pub api_key: Option<String>,
    /// Explicit environment variables to inject, earlier entries
    /// shadowing later ones of the same name.
    pub env: Vec<(String, String)>,
}

/// The skills section of the user configuration: overlay entries keyed
/// by skill key.  The keys are unique in a well-formed configuration;
/// lookups take the first match.
#[derive(Debug, Clone)]
pub struct SkillsConfig {
    pub entries: Vec<(String, SkillEntryConfig)>,
}

/// The user configuration document, reduced to what the core reads.
#[derive(Debug, Clone)]
pub struct ClawpilotConfig {
    pub skills: SkillsConfig,
}

/// First-match lookup of a skill key among the overlay entries.
pub open spec fn spec_entry_for(
    entries: Seq<(String, SkillEntryConfig)>,
    key: Seq<char>,
) -> Option<SkillEntryConfig>
    decreases entries.len(),
{
    if entries.len() == 0 {
        None
    } else if entries[0].0@ == key {
        Some(entries[0].1)
    } else {
        spec_entry_for(entries.drop_first(), key)
    }
}

/// Looks a skill's overlay entry up by its key.
pub fn entry_for<'a>(entries: &'a Vec<(String, SkillEntryConfig)>, key: &str) -> (r: Option<
    &'a SkillEntryConfig,
>)
    ensures
        match r {
            Some(e) => spec_entry_for(entries@, key@) == Some(*e),
            None => spec_entry_for(entries@, key@) is None,
        },
{
    let n: usize = entries.len();
    let mut i: usize = 0;
    proof {
        assert(entries@.skip(0) =~= entries@);
    }
    while i < n
        invariant
            n == entries@.len(),
            i <= n,
            spec_entry_for(entries@, key@) == spec_entry_for(entries@.skip(i as int), key@),
        decreases n - i,
    {
        proof {
            assert(entries@.skip(i as int)[0] == entries@[i as int]);
            assert(entries@.skip(i as int).drop_first() =~= entries@.skip(i as int + 1));
        }
        if crate::text::str_eq(entries[i].0.as_str(), key) {
            return Some(&entries[i].1);
        }
        i = i + 1;
    }
    None
}

/// Whether one required variable is satisfiable: set in the environment
/// snapshot, supplied by the entry's explicit map, or the skill's
/// primary variable backed by the entry's API key.
pub open spec fn spec_requirement_met(
    name: Seq<char>,
    primary_env: Option<String>,
    entry: Option<SkillEntryConfig>,
    env: Seq<(String, String)>,
) -> bool {
    ||| env_get(env, name) is Some
    ||| (entry matches Some(e) && (env_get(e.env@, name) is Some || (primary_env matches Some(p)
        && p@ == name && e.api_key is Some)))
}

/// Whether every variable the skill requires is satisfiable.
pub open spec fn spec_requirements_met(
    skill: Skill,
    entry: Option<SkillEntryConfig>,
    env: Seq<(String, String)>,
) -> bool {
    forall|i: int|
        0 <= i < skill.requires_env@.len() ==> spec_requirement_met(
            #[trigger] skill.requires_env@[i]@,
            skill.primary_env,
            entry,
            env,
        )
}

/// Checks the skill's required variables against the snapshot and its
/// overlay entry.
pub fn skill_requirements_met(
    skill: &Skill,
    entry: Option<&SkillEntryConfig>,
    env: &Vec<(String, String)>,
) -> (r: bool)
    ensures
        r == spec_requirements_met(
            *skill,
            match entry {
                Some(e) => Some(*e),
                None => None,
            },
            env@,
        ),
{
    let ghost entry_val = match entry {
        Some(e) => Some(*e),
        None => None,
    };
    let n: usize = skill.requires_env.len();
    let mut i: usize = 0;
    while i < n
        invariant
            n == skill.requires_env@.len(),
            entry_val == (match entry {
                Some(e) => Some(*e),
                None => None,
            }),
            i <= n,
            forall|j: int|
                0 <= j < i ==> spec_requirement_met(
                    #[trigger] skill.requires_env@[j]@,
                    skill.primary_env,
                    entry_val,
                    env@,
                ),
        decreases n - i,
    {
        let name = &skill.requires_env[i];
        let mut met = match crate::eligibility::env_lookup(env, name.as_str()) {
            Some(_) => true,
            None => false,
        };
        if !met {
            if let Some(e) = entry {
                match crate::eligibility::env_lookup(&e.env, name.as_str()) {
                    Some(_) => {
                        met = true;
                    },
                    None => {
                        match (&skill.primary_env, &e.api_key) {
                            (Some(p), Some(_)) => {
                                if crate::text::str_eq(p.as_str(), name.as_str()) {
                                    met = true;
                                }
                            },
                            _ => {},
                        }
                    },
                }
            }
        }
        if !met {
            return false;
        }
        i = i + 1;
    }
    true
}

/// The enablement decision: an explicit `false` flag disables the skill
/// unconditionally; an explicit `true` flag or no flag at all both
/// require the skill's declared environment requirements to be
/// satisfiable.
pub open spec fn spec_is_skill_enabled(
    skill: Skill,
    entries: Seq<(String, SkillEntryConfig)>,
    env: Seq<(String, String)>,
) -> bool {
    let entry = spec_entry_for(entries, skill.skill_key@);
    let met = spec_requirements_met(skill, entry, env);
    match entry {
        Some(e) => match e.enabled {
            Some(false) => false,
            _ => met,
        },
        None => met,
    }
}

/// Decides whether a skill is enabled for a run.
pub fn is_skill_enabled(
    skill: &Skill,
    entries: &Vec<(String, SkillEntryConfig)>,
    env: &Vec<(String, String)>,
) -> (r: bool)
    ensures
        r == spec_is_skill_enabled(*skill, entries@, env@),
{
    let entry = entry_for(entries, skill.skill_key.as_str());
    let met = skill_requirements_met(skill, entry, env);
    match entry {
        Some(e) => match e.enabled {
            Some(false) => false,
            _ => met,
        },
        None => met,
    }
}

/// An overlay entry with an explicit `enabled = false` flag disables
/// its skill, whatever the requirement checks would say.
pub proof fn lemma_explicit_disable_wins(
    skill: Skill,
    entries: Seq<(String, SkillEntryConfig)>,
    env: Seq<(String, String)>,
)
    requires
        spec_entry_for(entries, skill.skill_key@) matches Some(e) && e.enabled == Some(false),
    ensures
        !spec_is_skill_enabled(skill, entries, env),
{
}

/// Filters the discovered skills down to the enabled ones, in order.
pub fn load_skills_for_run(
    skills: Vec<Skill>,
    config: &SkillsConfig,
    env: &Vec<(String, String)>,
) -> (r: Vec<Skill>)
    ensures
        r@ == skills@.filter(
            |s: Skill| spec_is_skill_enabled(s, config.entries@, env@),
        ),
{
    let ghost pred = |s: Skill| spec_is_skill_enabled(s, config.entries@, env@);
    let ghost orig = skills@;
    let mut rest = skills;
    let mut out: Vec<Skill> = Vec::new();
    proof {
        reveal(Seq::filter);
        assert(orig.skip(0) =~= orig);
        assert(orig.take(0) =~= Seq::<Skill>::empty());
        assert(Seq::<Skill>::empty().filter(pred) =~= Seq::<Skill>::empty());
    }
    while rest.len() > 0
        invariant
            rest@.len() <= orig.len(),
            pred == (|s: Skill| spec_is_skill_enabled(s, config.entries@, env@)),
            orig.skip(orig.len() - rest@.len()) == rest@,
            out@ == orig.take(orig.len() - rest@.len()).filter(pred),
        decreases rest.len(),
    {
        let ghost k = orig.len() - rest@.len();
        let s = rest.remove(0);
        proof {
            assert(s == orig[k as int]);
            assert(rest@ =~= orig.skip(k as int).drop_first());
            assert(orig.skip(k as int).drop_first() =~= orig.skip(k as int + 1));
        }
        let enabled = is_skill_enabled(&s, &config.entries, env);
        let ghost prefix = orig.take(k as int);
        if enabled {
            out.push(s);
        }
        proof {
            reveal(Seq::filter);
            assert(orig.take(k as int + 1) =~= prefix + seq![orig[k as int]]);
            Seq::<Skill>::filter_distributes_over_add(prefix, seq![orig[k as int]], pred);
            assert(pred(orig[k as int]) == enabled);
            assert(seq![orig[k as int]].drop_last() =~= Seq::<Skill>::empty());
            assert(Seq::<Skill>::empty().filter(pred) =~= Seq::<Skill>::empty());
            assert(seq![orig[k as int]].last() == orig[k as int]);
            if enabled {
                assert(seq![orig[k as int]].filter(pred) =~= seq![orig[k as int]]);
                assert(out@ =~= prefix.filter(pred) + seq![orig[k as int]]);
            } else {
                assert(seq![orig[k as int]].filter(pred) =~= Seq::<Skill>::empty());
                assert(out@ =~= prefix.filter(pred) + Seq::<Skill>::empty());
            }
        }
    }
    proof {
        assert(orig.take(orig.len() as int) =~= orig);
    }
    out
}

} // verus!
