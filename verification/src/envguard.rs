//! The environment scope guard: injects skill-specific variables from
//! the configuration overlay into an environment map — only variables
//! not already set — capturing each mutated variable's prior state
//! exactly once, and restores every captured variable on disposal, so
//! the environment after restoration is exactly what it was before.
//!
//! The map here is the library's model of the process environment; the
//! caller that owns the real environment mirrors every mutation and
//! performs the restoration on every exit path of the scope it created
//! the guard in.

use vstd::prelude::*;
use crate::eligibility::env_get;
use crate::overlay::{SkillEntryConfig, SkillsConfig, spec_entry_for, entry_for};
use crate::skill::Skill;

verus! {

/// An environment: named variables and their values, earlier pairs
/// shadowing later ones of the same name.
#[derive(Debug, Clone)]
pub struct EnvMap {
    pub pairs: Vec<(String, String)>,
}

/// The map an association list denotes, earlier pairs shadowing later
/// ones.
pub open spec fn map_of(pairs: Seq<(String, String)>) -> Map<Seq<char>, Seq<char>>
    decreases pairs.len(),
{
    if pairs.len() == 0 {
        Map::empty()
    } else {
        map_of(pairs.drop_first()).insert(pairs[0].0@, pairs[0].1@)
    }
}

/// First-match lookup agrees with the denoted map.
pub proof fn lemma_env_get_map(pairs: Seq<(String, String)>, name: Seq<char>)
    ensures
        match env_get(pairs, name) {
            Some(v) => map_of(pairs).contains_key(name) && map_of(pairs)[name] == v,
            None => !map_of(pairs).contains_key(name),
        },
    decreases pairs.len(),
{
    if pairs.len() > 0 {
        lemma_env_get_map(pairs.drop_first(), name);
    }
}

/// The pairs that survive deleting a name.
pub open spec fn remove_all(pairs: Seq<(String, String)>, name: Seq<char>) -> Seq<(String, String)>
    decreases pairs.len(),
{
    if pairs.len() == 0 {
        Seq::empty()
    } else if pairs[0].0@ == name {
        remove_all(pairs.drop_first(), name)
    } else {
        seq![pairs[0]] + remove_all(pairs.drop_first(), name)
    }
}

proof fn lemma_remove_all_map(pairs: Seq<(String, String)>, name: Seq<char>)
    ensures
        map_of(remove_all(pairs, name)) == map_of(pairs).remove(name),
    decreases pairs.len(),
{
    if pairs.len() == 0 {
        assert(map_of(pairs).remove(name) =~= Map::empty());
    } else {
        lemma_remove_all_map(pairs.drop_first(), name);
        let rest = remove_all(pairs.drop_first(), name);
        if pairs[0].0@ == name {
            assert(map_of(pairs).remove(name) =~= map_of(pairs.drop_first()).remove(name));
        } else {
            let withhead = seq![pairs[0]] + rest;
            assert(withhead[0] == pairs[0]);
            assert(withhead.drop_first() =~= rest);
            assert(map_of(withhead) == map_of(rest).insert(pairs[0].0@, pairs[0].1@));
            assert(map_of(pairs.drop_first()).remove(name).insert(pairs[0].0@, pairs[0].1@)
                =~= map_of(pairs).remove(name));
        }
    }
}

proof fn lemma_remove_all_push(pairs: Seq<(String, String)>, x: (String, String), name: Seq<char>)
    ensures
        remove_all(pairs.push(x), name) == remove_all(pairs, name) + (if x.0@ == name {
            Seq::<(String, String)>::empty()
        } else {
            seq![x]
        }),
    decreases pairs.len(),
{
    let unit = if x.0@ == name {
        Seq::<(String, String)>::empty()
    } else {
        seq![x]
    };
    if pairs.len() == 0 {
        assert(pairs.push(x)[0] == x);
        assert(pairs.push(x).drop_first() =~= Seq::<(String, String)>::empty());
        assert(remove_all(Seq::<(String, String)>::empty(), name)
            == Seq::<(String, String)>::empty());
        if x.0@ == name {
            assert(remove_all(pairs.push(x), name) =~= remove_all(pairs, name) + unit);
        } else {
            assert(remove_all(pairs.push(x), name) =~= seq![x]);
            assert(remove_all(pairs, name) + unit =~= seq![x]);
        }
    } else {
        assert(pairs.push(x)[0] == pairs[0]);
        assert(pairs.push(x).drop_first() =~= pairs.drop_first().push(x));
        lemma_remove_all_push(pairs.drop_first(), x, name);
        if pairs[0].0@ == name {
        } else {
            assert(seq![pairs[0]] + (remove_all(pairs.drop_first(), name) + unit) =~= (seq![
                pairs[0],
            ] + remove_all(pairs.drop_first(), name)) + unit);
        }
    }
}

impl EnvMap {
    /// The denoted map: what each set variable holds.
    pub open spec fn view_map(&self) -> Map<Seq<char>, Seq<char>> {
        map_of(self.pairs@)
    }

    pub fn new() -> (r: EnvMap)
        ensures
            r.view_map() == Map::<Seq<char>, Seq<char>>::empty(),
    {
        EnvMap { pairs: Vec::new() }
    }

    /// Whether the variable is set.
    pub fn contains(&self, name: &str) -> (r: bool)
        ensures
            r == self.view_map().contains_key(name@),
    {
        proof {
            lemma_env_get_map(self.pairs@, name@);
        }
        match crate::eligibility::env_lookup(&self.pairs, name) {
            Some(_) => true,
            None => false,
        }
    }

    /// The variable's value, when set.
    pub fn get<'a>(&'a self, name: &str) -> (r: Option<&'a String>)
        ensures
            match r {
                Some(v) => self.view_map().contains_key(name@) && self.view_map()[name@] == v@,
                None => !self.view_map().contains_key(name@),
            },
    {
        proof {
            lemma_env_get_map(self.pairs@, name@);
        }
        crate::eligibility::env_lookup(&self.pairs, name)
    }

    /// Sets the variable, shadowing any earlier value.
    pub fn set(&mut self, name: &str, value: &str)
        ensures
            final(self).view_map() == old(self).view_map().insert(name@, value@),
    {
        let pair = (name.to_owned(), value.to_owned());
        self.pairs.insert(0, pair);
        proof {
            assert(self.pairs@[0].0@ == name@ && self.pairs@[0].1@ == value@);
            assert(self.pairs@.drop_first() =~= old(self).pairs@);
        }
    }

    /// Removes the variable entirely.
    pub fn remove(&mut self, name: &str)
        ensures
            final(self).view_map() == old(self).view_map().remove(name@),
    {
        let n: usize = self.pairs.len();
        let mut kept: Vec<(String, String)> = Vec::new();
        let mut i: usize = 0;
        proof {
            assert(self.pairs@.take(0) =~= Seq::<(String, String)>::empty());
            assert(kept@ =~= remove_all(self.pairs@.take(0), name@));
        }
        while i < n
            invariant
                n == self.pairs@.len(),
                self.pairs@ == old(self).pairs@,
                i <= n,
                kept@ == remove_all(self.pairs@.take(i as int), name@),
            decreases n - i,
        {
            let ghost prefix = self.pairs@.take(i as int);
            let keep = !crate::text::str_eq(self.pairs[i].0.as_str(), name);
            if keep {
                let k = self.pairs[i].0.clone();
                let v = self.pairs[i].1.clone();
                kept.push((k, v));
            }
            proof {
                assert(self.pairs@.take(i as int + 1) =~= prefix.push(self.pairs@[i as int]));
                lemma_remove_all_push(prefix, self.pairs@[i as int], name@);
                if keep {
                    assert(kept@ =~= remove_all(prefix, name@) + seq![self.pairs@[i as int]]);
                } else {
                    assert(remove_all(prefix, name@) + Seq::<(String, String)>::empty()
                        =~= remove_all(prefix, name@));
                }
            }
            i = i + 1;
        }
        proof {
            assert(self.pairs@.take(n as int) =~= self.pairs@);
            lemma_remove_all_map(self.pairs@, name@);
        }
        self.pairs = kept;
    }
}

/// The capture list of an environment scope guard: each mutated
/// variable's name with its pre-mutation value — present value or
/// explicit absence — captured exactly once, in mutation order.
#[derive(Debug, Clone)]
pub struct SkillEnvGuard {
    pub captured: Vec<(String, Option<String>)>,
}

/// One capture undone: the captured value put back, or the variable
/// removed when it was captured as absent.
pub open spec fn restore_one(
    m: Map<Seq<char>, Seq<char>>,
    c: (String, Option<String>),
) -> Map<Seq<char>, Seq<char>> {
    match c.1 {
        Some(v) => m.insert(c.0@, v@),
        None => m.remove(c.0@),
    }
}

/// The environment after undoing the captures, latest first.
pub open spec fn spec_restore(
    m: Map<Seq<char>, Seq<char>>,
    cap: Seq<(String, Option<String>)>,
) -> Map<Seq<char>, Seq<char>>
    decreases cap.len(),
{
    if cap.len() == 0 {
        m
    } else {
        restore_one(spec_restore(m, cap.drop_first()), cap[0])
    }
}

/// The environment and capture list after injecting one entry's
/// explicit variable map: each variable not yet set is set and captured
/// as previously absent.
pub open spec fn spec_inject_pairs(
    m: Map<Seq<char>, Seq<char>>,
    pairs: Seq<(String, String)>,
) -> (Map<Seq<char>, Seq<char>>, Seq<(String, Option<String>)>)
    decreases pairs.len(),
{
    if pairs.len() == 0 {
        (m, Seq::empty())
    } else if m.contains_key(pairs[0].0@) {
        spec_inject_pairs(m, pairs.drop_first())
    } else {
        let r = spec_inject_pairs(m.insert(pairs[0].0@, pairs[0].1@), pairs.drop_first());
        (r.0, seq![(pairs[0].0, Option::<String>::None)] + r.1)
    }
}

/// The environment and capture list after injecting one skill's
/// overlay entry: the explicit variable map first, then the API key
/// under the skill's primary variable — only when that variable is
/// still unset and the explicit map does not cover it.
pub open spec fn spec_inject_skill(
    m: Map<Seq<char>, Seq<char>>,
    skill: Skill,
    e: SkillEntryConfig,
) -> (Map<Seq<char>, Seq<char>>, Seq<(String, Option<String>)>) {
    let r1 = spec_inject_pairs(m, e.env@);
    match (skill.primary_env, e.api_key) {
        (Some(p), Some(key)) => if !r1.0.contains_key(p@) && env_get(e.env@, p@) is None {
            (r1.0.insert(p@, key@), r1.1 + seq![(p, Option::<String>::None)])
        } else {
            r1
        },
        _ => r1,
    }
}

/// The environment and capture list after injecting every skill that
/// has an overlay entry, in skill order.
pub open spec fn spec_apply_overrides(
    m: Map<Seq<char>, Seq<char>>,
    skills: Seq<Skill>,
    entries: Seq<(String, SkillEntryConfig)>,
) -> (Map<Seq<char>, Seq<char>>, Seq<(String, Option<String>)>)
    decreases skills.len(),
{
    if skills.len() == 0 {
        (m, Seq::empty())
    } else {
        let first = match spec_entry_for(entries, skills[0].skill_key@) {
            Some(e) => spec_inject_skill(m, skills[0], e),
            None => (m, Seq::<(String, Option<String>)>::empty()),
        };
        let rest = spec_apply_overrides(first.0, skills.drop_first(), entries);
        (rest.0, first.1 + rest.1)
    }
}

proof fn lemma_restore_concat(
    m: Map<Seq<char>, Seq<char>>,
    a: Seq<(String, Option<String>)>,
    b: Seq<(String, Option<String>)>,
)
    ensures
        spec_restore(m, a + b) == spec_restore(spec_restore(m, b), a),
    decreases a.len(),
{
    if a.len() == 0 {
        assert(a + b =~= b);
    } else {
        assert((a + b)[0] == a[0]);
        assert((a + b).drop_first() =~= a.drop_first() + b);
        lemma_restore_concat(m, a.drop_first(), b);
    }
}

proof fn lemma_inject_pairs_round(m: Map<Seq<char>, Seq<char>>, pairs: Seq<(String, String)>)
    ensures
        spec_restore(spec_inject_pairs(m, pairs).0, spec_inject_pairs(m, pairs).1) == m,
    decreases pairs.len(),
{
    if pairs.len() == 0 {
    } else if m.contains_key(pairs[0].0@) {
        lemma_inject_pairs_round(m, pairs.drop_first());
    } else {
        let k = pairs[0].0@;
        let v = pairs[0].1@;
        let c = (pairs[0].0, Option::<String>::None);
        let r = spec_inject_pairs(m.insert(k, v), pairs.drop_first());
        lemma_inject_pairs_round(m.insert(k, v), pairs.drop_first());
        lemma_restore_concat(r.0, seq![c], r.1);
        assert(seq![c].drop_first() =~= Seq::<(String, Option<String>)>::empty());
        assert(seq![c][0] == c);
        assert(spec_restore(m.insert(k, v), Seq::<(String, Option<String>)>::empty()) == m.insert(
            k,
            v,
        ));
        assert(spec_restore(m.insert(k, v), seq![c]) == m.insert(k, v).remove(k));
        assert(m.insert(k, v).remove(k) =~= m);
    }
}

proof fn lemma_inject_skill_round(m: Map<Seq<char>, Seq<char>>, skill: Skill, e: SkillEntryConfig)
    ensures
        spec_restore(spec_inject_skill(m, skill, e).0, spec_inject_skill(m, skill, e).1) == m,
{
    lemma_inject_pairs_round(m, e.env@);
    let r1 = spec_inject_pairs(m, e.env@);
    match (skill.primary_env, e.api_key) {
        (Some(p), Some(key)) => {
            if !r1.0.contains_key(p@) && env_get(e.env@, p@) is None {
                let cp = (p, Option::<String>::None);
                let m2 = r1.0.insert(p@, key@);
                lemma_restore_concat(m2, r1.1, seq![cp]);
                assert(seq![cp].drop_first() =~= Seq::<(String, Option<String>)>::empty());
                assert(seq![cp][0] == cp);
                assert(spec_restore(m2, Seq::<(String, Option<String>)>::empty()) == m2);
                assert(spec_restore(m2, seq![cp]) == m2.remove(p@));
                assert(m2.remove(p@) =~= r1.0);
            }
        },
        _ => {},
    }
}

/// Restoration inverts injection: applying the overlay's environment
/// overrides and then restoring every captured variable returns the
/// environment to exactly its prior state, for every environment, skill
/// list and overlay.
pub proof fn lemma_guard_round_trip(
    m: Map<Seq<char>, Seq<char>>,
    skills: Seq<Skill>,
    entries: Seq<(String, SkillEntryConfig)>,
)
    ensures
        spec_restore(
            spec_apply_overrides(m, skills, entries).0,
            spec_apply_overrides(m, skills, entries).1,
        ) == m,
    decreases skills.len(),
{
    if skills.len() == 0 {
    } else {
        let first = match spec_entry_for(entries, skills[0].skill_key@) {
            Some(e) => spec_inject_skill(m, skills[0], e),
            None => (m, Seq::<(String, Option<String>)>::empty()),
        };
        match spec_entry_for(entries, skills[0].skill_key@) {
            Some(e) => {
                lemma_inject_skill_round(m, skills[0], e);
            },
            None => {},
        }
        let rest = spec_apply_overrides(first.0, skills.drop_first(), entries);
        lemma_guard_round_trip(first.0, skills.drop_first(), entries);
        lemma_restore_concat(rest.0, first.1, rest.1);
    }
}

proof fn lemma_inject_pairs_preserves(
    m: Map<Seq<char>, Seq<char>>,
    pairs: Seq<(String, String)>,
    name: Seq<char>,
)
    requires
        m.contains_key(name),
    ensures
        spec_inject_pairs(m, pairs).0.contains_key(name),
        spec_inject_pairs(m, pairs).0[name] == m[name],
    decreases pairs.len(),
{
    if pairs.len() == 0 {
    } else if m.contains_key(pairs[0].0@) {
        lemma_inject_pairs_preserves(m, pairs.drop_first(), name);
    } else {
        lemma_inject_pairs_preserves(
            m.insert(pairs[0].0@, pairs[0].1@),
            pairs.drop_first(),
            name,
        );
    }
}

/// Injection never overwrites: a variable set before the guard ran
/// keeps its pre-existing value through every injection.
pub proof fn lemma_apply_preserves_existing(
    m: Map<Seq<char>, Seq<char>>,
    skills: Seq<Skill>,
    entries: Seq<(String, SkillEntryConfig)>,
    name: Seq<char>,
)
    requires
        m.contains_key(name),
    ensures
        spec_apply_overrides(m, skills, entries).0.contains_key(name),
        spec_apply_overrides(m, skills, entries).0[name] == m[name],
    decreases skills.len(),
{
    if skills.len() == 0 {
    } else {
        let first = match spec_entry_for(entries, skills[0].skill_key@) {
            Some(e) => spec_inject_skill(m, skills[0], e),
            None => (m, Seq::<(String, Option<String>)>::empty()),
        };
        match spec_entry_for(entries, skills[0].skill_key@) {
            Some(e) => {
                lemma_inject_pairs_preserves(m, e.env@, name);
            },
            None => {},
        }
        lemma_apply_preserves_existing(first.0, skills.drop_first(), entries, name);
    }
}

proof fn lemma_inject_pairs_no_new(
    m: Map<Seq<char>, Seq<char>>,
    pairs: Seq<(String, String)>,
    name: Seq<char>,
)
    requires
        !m.contains_key(name),
        env_get(pairs, name) is None,
    ensures
        !spec_inject_pairs(m, pairs).0.contains_key(name),
    decreases pairs.len(),
{
    if pairs.len() == 0 {
    } else if m.contains_key(pairs[0].0@) {
        lemma_inject_pairs_no_new(m, pairs.drop_first(), name);
    } else {
        assert(pairs[0].0@ != name);
        lemma_inject_pairs_no_new(m.insert(pairs[0].0@, pairs[0].1@), pairs.drop_first(), name);
    }
}

/// An overlay entry that maps a skill's primary variable through an API
/// key, with that variable unset beforehand and not covered by the
/// explicit map, leaves the variable holding exactly the API key inside
/// the guard's scope.
pub proof fn lemma_api_key_injected(
    m: Map<Seq<char>, Seq<char>>,
    skill: Skill,
    e: SkillEntryConfig,
    entries: Seq<(String, SkillEntryConfig)>,
)
    requires
        spec_entry_for(entries, skill.skill_key@) == Some(e),
        skill.primary_env matches Some(p) && !m.contains_key(p@) && env_get(e.env@, p@) is None,
        e.api_key is Some,
    ensures
        skill.primary_env matches Some(p) && {
            &&& spec_apply_overrides(m, seq![skill], entries).0.contains_key(p@)
            &&& e.api_key matches Some(key) && spec_apply_overrides(m, seq![skill], entries).0[p@]
                == key@
        },
{
    let p = skill.primary_env->0;
    lemma_inject_pairs_no_new(m, e.env@, p@);
    assert(seq![skill][0] == skill);
    assert(seq![skill].drop_first() =~= Seq::<Skill>::empty());
    let first = spec_inject_skill(m, skill, e);
    assert(spec_apply_overrides(first.0, seq![skill].drop_first(), entries).0 == first.0);
}

/// Applies the overlay's environment overrides for the listed skills,
/// mutating the environment and returning the guard that undoes it.
pub fn apply_env_overrides_for_run(
    env: &mut EnvMap,
    skills: &Vec<Skill>,
    config: &SkillsConfig,
) -> (g: SkillEnvGuard)
    ensures
        final(env).view_map() == spec_apply_overrides(
            old(env).view_map(),
            skills@,
            config.entries@,
        ).0,
        g.captured@ == spec_apply_overrides(old(env).view_map(), skills@, config.entries@).1,
{
    let ghost m0 = old(env).view_map();
    let mut cap: Vec<(String, Option<String>)> = Vec::new();
    let n: usize = skills.len();
    let mut i: usize = 0;
    proof {
        assert(skills@.skip(0) =~= skills@);
        assert(cap@ + spec_apply_overrides(env.view_map(), skills@, config.entries@).1
            =~= spec_apply_overrides(m0, skills@, config.entries@).1);
    }
    while i < n
        invariant
            n == skills@.len(),
            i <= n,
            spec_apply_overrides(m0, skills@, config.entries@).0 == spec_apply_overrides(
                env.view_map(),
                skills@.skip(i as int),
                config.entries@,
            ).0,
            spec_apply_overrides(m0, skills@, config.entries@).1 == cap@ + spec_apply_overrides(
                env.view_map(),
                skills@.skip(i as int),
                config.entries@,
            ).1,
        decreases n - i,
    {
        let ghost m_now = env.view_map();
        let ghost suffix = skills@.skip(i as int);
        proof {
            assert(suffix[0] == skills@[i as int]);
            assert(suffix.drop_first() =~= skills@.skip(i as int + 1));
        }
        let skill = &skills[i];
        match entry_for(&config.entries, skill.skill_key.as_str()) {
            Some(e) => {
                let ghost cap_before = cap@;
                inject_for_skill(env, &mut cap, skill, e);
                proof {
                    let ghost first = spec_inject_skill(m_now, skills@[i as int], *e);
                    assert(cap@ =~= cap_before + first.1);
                    let ghost rest = spec_apply_overrides(
                        first.0,
                        skills@.skip(i as int + 1),
                        config.entries@,
                    );
                    assert(cap_before + (first.1 + rest.1) =~= (cap_before + first.1) + rest.1);
                }
            },
            None => {
                proof {
                    let ghost rest = spec_apply_overrides(
                        m_now,
                        skills@.skip(i as int + 1),
                        config.entries@,
                    );
                    assert(Seq::<(String, Option<String>)>::empty() + rest.1 =~= rest.1);
                }
            },
        }
        i = i + 1;
    }
    proof {
        assert(skills@.skip(n as int) =~= Seq::<Skill>::empty());
        assert(cap@ + Seq::<(String, Option<String>)>::empty() =~= cap@);
    }
    SkillEnvGuard { captured: cap }
}

/// Injects one skill's overlay entry into the environment, extending
/// the capture list.
fn inject_for_skill(
    env: &mut EnvMap,
    cap: &mut Vec<(String, Option<String>)>,
    skill: &Skill,
    e: &SkillEntryConfig,
)
    ensures
        final(env).view_map() == spec_inject_skill(old(env).view_map(), *skill, *e).0,
        final(cap)@ == old(cap)@ + spec_inject_skill(old(env).view_map(), *skill, *e).1,
{
    let ghost m0 = old(env).view_map();
    let ghost cap0 = old(cap)@;
    let pn: usize = e.env.len();
    let mut j: usize = 0;
    proof {
        assert(e.env@.skip(0) =~= e.env@);
        assert(cap0 + spec_inject_pairs(env.view_map(), e.env@).1 =~= cap0 + spec_inject_pairs(
            m0,
            e.env@,
        ).1);
    }
    while j < pn
        invariant
            pn == e.env@.len(),
            j <= pn,
            spec_inject_pairs(m0, e.env@).0 == spec_inject_pairs(
                env.view_map(),
                e.env@.skip(j as int),
            ).0,
            cap0 + spec_inject_pairs(m0, e.env@).1 == cap@ + spec_inject_pairs(
                env.view_map(),
                e.env@.skip(j as int),
            ).1,
        decreases pn - j,
    {
        let ghost m_now = env.view_map();
        let ghost suffix = e.env@.skip(j as int);
        proof {
            assert(suffix[0] == e.env@[j as int]);
            assert(suffix.drop_first() =~= e.env@.skip(j as int + 1));
        }
        let name = &e.env[j].0;
        let value = &e.env[j].1;
        if !env.contains(name.as_str()) {
            let ghost cap_before = cap@;
            cap.push((name.clone(), None));
            env.set(name.as_str(), value.as_str());
            proof {
                let ghost c = (e.env@[j as int].0, Option::<String>::None);
                assert(cap@ =~= cap_before + seq![c]);
                let ghost r = spec_inject_pairs(
                    m_now.insert(e.env@[j as int].0@, e.env@[j as int].1@),
                    e.env@.skip(j as int + 1),
                );
                assert(cap_before + (seq![c] + r.1) =~= (cap_before + seq![c]) + r.1);
            }
        }
        j = j + 1;
    }
    proof {
        assert(e.env@.skip(pn as int) =~= Seq::<(String, String)>::empty());
    }
    let ghost r1 = spec_inject_pairs(m0, e.env@);
    proof {
        assert(env.view_map() == r1.0);
        assert(cap@ =~= cap0 + r1.1);
    }
    match (&skill.primary_env, &e.api_key) {
        (Some(p), Some(key)) => {
            let in_entry_env = match crate::eligibility::env_lookup(&e.env, p.as_str()) {
                Some(_) => true,
                None => false,
            };
            if !env.contains(p.as_str()) && !in_entry_env {
                let ghost cap_before = cap@;
                cap.push((p.clone(), None));
                env.set(p.as_str(), key.as_str());
                proof {
                    let ghost cp = (skill.primary_env->0, Option::<String>::None);
                    assert(cap@ =~= cap_before + seq![cp]);
                    assert(cap@ =~= cap0 + (r1.1 + seq![cp]));
                }
            }
        },
        _ => {},
    }
}

/// Restores every captured variable to its captured state, undoing the
/// guard's injections latest first.
pub fn restore_env_overrides(env: &mut EnvMap, g: &SkillEnvGuard)
    ensures
        final(env).view_map() == spec_restore(old(env).view_map(), g.captured@),
{
    let ghost m0 = old(env).view_map();
    let n: usize = g.captured.len();
    let mut i: usize = n;
    proof {
        assert(g.captured@.skip(n as int) =~= Seq::<(String, Option<String>)>::empty());
    }
    while i > 0
        invariant
            n == g.captured@.len(),
            i <= n,
            env.view_map() == spec_restore(m0, g.captured@.skip(i as int)),
        decreases i,
    {
        i = i - 1;
        let ghost suffix = g.captured@.skip(i as int);
        proof {
            assert(suffix[0] == g.captured@[i as int]);
            assert(suffix.drop_first() =~= g.captured@.skip(i as int + 1));
        }
        match &g.captured[i].1 {
            Some(v) => {
                env.set(g.captured[i].0.as_str(), v.as_str());
            },
            None => {
                env.remove(g.captured[i].0.as_str());
            },
        }
    }
    proof {
        assert(g.captured@.skip(0) =~= g.captured@);
    }
}

} // verus!
