//! Requirement-based eligibility gating: given a skill's declared gating
//! metadata and a snapshot of the host (platform tag, executable search
//! path, file-system probe results, environment, resolvable configuration
//! keys), decide whether the skill may run and collect a human-readable
//! reason for every unmet requirement.
//!
//! All checks are pure over the supplied [`EligibilityContext`], so the
//! evaluation never reads ambient process state and is deterministic.

use vstd::prelude::*;
use crate::text::{spec_trim, trim_str, str_eq, views_of, join_with, join_strings};

verus! {

/// The platform tags a skill may require.
#[derive(Debug, Clone, Copy, PartialEq, Eq, Structural)]
pub enum SkillOs {
    Linux,
    Darwin,
    Win32,
}

impl SkillOs {
    /// The tag's name, as the requirement reasons spell it.
    pub open spec fn spec_name(self) -> Seq<char> {
        match self {
            SkillOs::Linux => "Linux"@,
            SkillOs::Darwin => "Darwin"@,
            SkillOs::Win32 => "Win32"@,
        }
    }

    pub fn name(self) -> (r: &'static str)
        ensures
            r@ == self.spec_name(),
    {
        match self {
            SkillOs::Linux => "Linux",
            SkillOs::Darwin => "Darwin",
            SkillOs::Win32 => "Win32",
        }
    }
}

/// The requirements block of a skill's gating metadata.
#[derive(Debug, Clone)]
pub struct SkillRequires {
    /// Executables that must all resolve.
    pub bins: Vec<String>,
    /// Executables of which at least one must resolve.
    pub any_bins: Vec<String>,
    /// Environment variables that must be set and not blank.
    pub env: Vec<String>,
    /// Dotted configuration-key paths that must resolve in the companion
    /// configuration file.
    pub config: Vec<String>,
}

/// A skill's gating metadata, as the structured manifest declares it.
#[derive(Debug, Clone)]
pub struct SkillGating {
    /// Unconditionally eligible, overriding every other requirement.
    pub always: bool,
    /// The platform the skill requires, if any.
    pub os: Option<SkillOs>,
    /// The identifier joining the skill to user configuration, when it
    /// differs from the skill's name.
    pub skill_key: Option<String>,
    /// The variable a configured API key is injected under.
    pub primary_env: Option<String>,
    pub requires: SkillRequires,
}

/// A snapshot of everything eligibility evaluation may consult.
#[derive(Debug, Clone)]
pub struct EligibilityContext {
    /// The current platform's tag.
    pub os: SkillOs,
    /// The directories of the effective executable search path, in order.
    pub search_dirs: Vec<String>,
    /// The paths known to be regular files.
    pub files: Vec<String>,
    /// The effective environment, earlier entries shadowing later ones.
    pub env: Vec<(String, String)>,
    /// The dotted key paths resolvable in the companion configuration file.
    pub config_keys: Vec<String>,
}

/// First-match lookup in an association list of environment variables.
pub open spec fn env_get(env: Seq<(String, String)>, name: Seq<char>) -> Option<Seq<char>>
    decreases env.len(),
{
    if env.len() == 0 {
        None
    } else if env[0].0@ == name {
        Some(env[0].1@)
    } else {
        env_get(env.drop_first(), name)
    }
}

/// Looks a variable up in the snapshot environment.
pub fn env_lookup<'a>(env: &'a Vec<(String, String)>, name: &str) -> (r: Option<&'a String>)
    ensures
        match r {
            Some(v) => env_get(env@, name@) == Some(v@),
            None => env_get(env@, name@) is None,
        },
{
    let n: usize = env.len();
    let mut i: usize = 0;
    proof {
        assert(env@.skip(0) =~= env@);
    }
    while i < n
        invariant
            n == env@.len(),
            i <= n,
            env_get(env@, name@) == env_get(env@.skip(i as int), name@),
        decreases n - i,
    {
        proof {
            assert(env@.skip(i as int)[0] == env@[i as int]);
            assert(env@.skip(i as int).drop_first() =~= env@.skip(i as int + 1));
        }
        if str_eq(env[i].0.as_str(), name) {
            return Some(&env[i].1);
        }
        i = i + 1;
    }
    None
}

/// Whether some string in the sequence has this view.
pub open spec fn seq_contains_str(v: Seq<String>, s: Seq<char>) -> bool {
    exists|i: int| 0 <= i < v.len() && v[i]@ == s
}

/// Membership test against a vector of strings.
pub fn contains_string(v: &Vec<String>, s: &str) -> (r: bool)
    ensures
        r == seq_contains_str(v@, s@),
{
    let n: usize = v.len();
    let mut i: usize = 0;
    while i < n
        invariant
            n == v@.len(),
            i <= n,
            forall|j: int| 0 <= j < i ==> v@[j]@ != s@,
        decreases n - i,
    {
        if str_eq(v[i].as_str(), s) {
            return true;
        }
        i = i + 1;
    }
    false
}

/// Whether the name contains the platform's path separator.
pub open spec fn contains_sep(s: Seq<char>) -> bool {
    exists|i: int| 0 <= i < s.len() && s[i] == '/'
}

pub fn has_path_separator(s: &str) -> (r: bool)
    ensures
        r == contains_sep(s@),
{
    let n: usize = s.unicode_len();
    let mut i: usize = 0;
    while i < n
        invariant
            n == s@.len(),
            i <= n,
            forall|j: int| 0 <= j < i ==> s@[j] != '/',
        decreases n - i,
    {
        if s.get_char(i) == '/' {
            return true;
        }
        i = i + 1;
    }
    false
}

/// A directory joined with a file name, as `Path::join` renders it.
pub open spec fn spec_join_path(dir: Seq<char>, name: Seq<char>) -> Seq<char> {
    if dir.len() == 0 {
        name
    } else if dir.last() == '/' {
        dir + name
    } else {
        dir + seq!['/'] + name
    }
}

pub fn join_path(dir: &str, name: &str) -> (r: String)
    ensures
        r@ == spec_join_path(dir@, name@),
{
    let n: usize = dir.unicode_len();
    if n == 0 {
        let r = name.to_owned();
        proof {
            assert(r@ =~= spec_join_path(dir@, name@));
        }
        return r;
    }
    let mut r = dir.to_owned();
    if dir.get_char(n - 1) != '/' {
        r.append("/");
        proof {
            reveal_strlit("/");
            assert("/"@ =~= seq!['/']);
        }
    }
    r.append(name);
    proof {
        assert(r@ =~= spec_join_path(dir@, name@));
    }
    r
}

/// Whether a required executable resolves: a name containing a path
/// separator must itself be a regular file; any other name must be a
/// regular file when joined with some directory of the search path.
pub open spec fn spec_bin_resolves(bin: Seq<char>, ctx: EligibilityContext) -> bool {
    if spec_trim(bin).len() == 0 {
        false
    } else if contains_sep(bin) {
        seq_contains_str(ctx.files@, bin)
    } else {
        exists|i: int|
            0 <= i < ctx.search_dirs@.len() && seq_contains_str(
                ctx.files@,
                spec_join_path(ctx.search_dirs@[i]@, bin),
            )
    }
}

/// Resolves an executable name against the snapshot, as the eligibility
/// rules require.
pub fn find_binary_in_path(bin: &str, ctx: &EligibilityContext) -> (r: bool)
    ensures
        r == spec_bin_resolves(bin@, *ctx),
{
    let trimmed = trim_str(bin);
    if trimmed.as_str().unicode_len() == 0 {
        return false;
    }
    if has_path_separator(bin) {
        return contains_string(&ctx.files, bin);
    }
    let n: usize = ctx.search_dirs.len();
    let mut i: usize = 0;
    while i < n
        invariant
            n == ctx.search_dirs@.len(),
            i <= n,
            spec_trim(bin@).len() > 0,
            !contains_sep(bin@),
            forall|j: int|
                0 <= j < i ==> !seq_contains_str(
                    ctx.files@,
                    spec_join_path(ctx.search_dirs@[j]@, bin@),
                ),
        decreases n - i,
    {
        let candidate = join_path(ctx.search_dirs[i].as_str(), bin);
        if contains_string(&ctx.files, candidate.as_str()) {
            return true;
        }
        i = i + 1;
    }
    false
}

/// The reason recorded for a platform mismatch.
pub open spec fn os_reason(required: SkillOs, current: SkillOs) -> Seq<char> {
    "requires os="@ + required.spec_name() + ", current os="@ + current.spec_name()
}

/// The reason recorded for an unresolved required executable.
pub open spec fn bin_reason(bin: Seq<char>) -> Seq<char> {
    "missing required binary '"@ + bin + "' on PATH"@
}

/// The reason recorded when none of the alternative executables resolve.
pub open spec fn any_bins_reason(any_bins: Seq<String>) -> Seq<char> {
    "missing any required binary on PATH ("@ + join_with(views_of(any_bins), ", "@) + ")"@
}

/// The reason recorded for an absent or blank required environment variable.
pub open spec fn env_reason(name: Seq<char>) -> Seq<char> {
    "missing required env '"@ + name + "'"@
}

/// The reason recorded for a configuration key that does not resolve.
pub open spec fn config_reason(key: Seq<char>) -> Seq<char> {
    "requires.config '"@ + key + "' unsupported currently (no matching config found)"@
}

/// Whether a required environment variable is satisfied: present in the
/// snapshot with a value that is not blank.
pub open spec fn spec_env_satisfied(name: Seq<char>, ctx: EligibilityContext) -> bool {
    match env_get(ctx.env@, name) {
        Some(v) => spec_trim(v).len() > 0,
        None => false,
    }
}

pub open spec fn os_reasons(g: SkillGating, ctx: EligibilityContext) -> Seq<Seq<char>> {
    match g.os {
        Some(required) => if required != ctx.os {
            seq![os_reason(required, ctx.os)]
        } else {
            Seq::empty()
        },
        None => Seq::empty(),
    }
}

pub open spec fn bins_reasons(bins: Seq<String>, ctx: EligibilityContext) -> Seq<Seq<char>>
    decreases bins.len(),
{
    if bins.len() == 0 {
        Seq::empty()
    } else {
        (if !spec_bin_resolves(bins[0]@, ctx) {
            seq![bin_reason(bins[0]@)]
        } else {
            Seq::empty()
        }) + bins_reasons(bins.drop_first(), ctx)
    }
}

pub open spec fn any_bins_reasons(any_bins: Seq<String>, ctx: EligibilityContext) -> Seq<
    Seq<char>,
> {
    if any_bins.len() > 0 && !(exists|i: int|
        0 <= i < any_bins.len() && spec_bin_resolves(any_bins[i]@, ctx)) {
        seq![any_bins_reason(any_bins)]
    } else {
        Seq::empty()
    }
}

pub open spec fn env_reasons(names: Seq<String>, ctx: EligibilityContext) -> Seq<Seq<char>>
    decreases names.len(),
{
    if names.len() == 0 {
        Seq::empty()
    } else {
        (if !spec_env_satisfied(names[0]@, ctx) {
            seq![env_reason(names[0]@)]
        } else {
            Seq::empty()
        }) + env_reasons(names.drop_first(), ctx)
    }
}

pub open spec fn config_reasons(keys: Seq<String>, ctx: EligibilityContext) -> Seq<Seq<char>>
    decreases keys.len(),
{
    if keys.len() == 0 {
        Seq::empty()
    } else {
        (if !seq_contains_str(ctx.config_keys@, keys[0]@) {
            seq![config_reason(keys[0]@)]
        } else {
            Seq::empty()
        }) + config_reasons(keys.drop_first(), ctx)
    }
}

/// Every reason the gating metadata earns against the snapshot, in the
/// order the requirements are checked: platform, required executables,
/// alternative executables, environment variables, configuration keys.
/// The `always` flag short-circuits them all.
pub open spec fn spec_eligibility_reasons(g: SkillGating, ctx: EligibilityContext) -> Seq<
    Seq<char>,
> {
    if g.always {
        Seq::empty()
    } else {
        os_reasons(g, ctx) + bins_reasons(g.requires.bins@, ctx) + any_bins_reasons(
            g.requires.any_bins@,
            ctx,
        ) + env_reasons(g.requires.env@, ctx) + config_reasons(g.requires.config@, ctx)
    }
}

/// Gating metadata whose `always` flag is set is eligible with an empty
/// reason list, whatever the other requirements declare and whatever the
/// snapshot holds: the escape hatch is never diluted by a failing
/// requirement.
pub proof fn lemma_always_eligible(g: SkillGating, ctx: EligibilityContext)
    requires
        g.always,
    ensures
        spec_eligibility_reasons(g, ctx) == Seq::<Seq<char>>::empty(),
        spec_eligibility_reasons(g, ctx).len() == 0,
{
}

proof fn lemma_bins_reasons_push(bins: Seq<String>, x: String, ctx: EligibilityContext)
    ensures
        bins_reasons(bins.push(x), ctx) == bins_reasons(bins, ctx) + (if !spec_bin_resolves(
            x@,
            ctx,
        ) {
            seq![bin_reason(x@)]
        } else {
            Seq::<Seq<char>>::empty()
        }),
    decreases bins.len(),
{
    let unit = if !spec_bin_resolves(x@, ctx) {
        seq![bin_reason(x@)]
    } else {
        Seq::<Seq<char>>::empty()
    };
    if bins.len() == 0 {
        let pushed = bins.push(x);
        assert(pushed[0] == x);
        assert(pushed.drop_first() =~= Seq::<String>::empty());
        assert(bins_reasons(pushed.drop_first(), ctx) == Seq::<Seq<char>>::empty());
        assert(bins_reasons(pushed, ctx) == unit + Seq::<Seq<char>>::empty());
        assert(unit + Seq::<Seq<char>>::empty() =~= Seq::<Seq<char>>::empty() + unit);
        assert(bins_reasons(bins, ctx) == Seq::<Seq<char>>::empty());
    } else {
        assert(bins.push(x)[0] == bins[0]);
        assert(bins.push(x).drop_first() =~= bins.drop_first().push(x));
        lemma_bins_reasons_push(bins.drop_first(), x, ctx);
        let head = if !spec_bin_resolves(bins[0]@, ctx) {
            seq![bin_reason(bins[0]@)]
        } else {
            Seq::<Seq<char>>::empty()
        };
        assert(head + (bins_reasons(bins.drop_first(), ctx) + unit) =~= (head + bins_reasons(
            bins.drop_first(),
            ctx,
        )) + unit);
    }
}

proof fn lemma_env_reasons_push(names: Seq<String>, x: String, ctx: EligibilityContext)
    ensures
        env_reasons(names.push(x), ctx) == env_reasons(names, ctx) + (if !spec_env_satisfied(
            x@,
            ctx,
        ) {
            seq![env_reason(x@)]
        } else {
            Seq::<Seq<char>>::empty()
        }),
    decreases names.len(),
{
    let unit = if !spec_env_satisfied(x@, ctx) {
        seq![env_reason(x@)]
    } else {
        Seq::<Seq<char>>::empty()
    };
    if names.len() == 0 {
        let pushed = names.push(x);
        assert(pushed[0] == x);
        assert(pushed.drop_first() =~= Seq::<String>::empty());
        assert(env_reasons(pushed.drop_first(), ctx) == Seq::<Seq<char>>::empty());
        assert(env_reasons(pushed, ctx) == unit + Seq::<Seq<char>>::empty());
        assert(unit + Seq::<Seq<char>>::empty() =~= Seq::<Seq<char>>::empty() + unit);
        assert(env_reasons(names, ctx) == Seq::<Seq<char>>::empty());
    } else {
        assert(names.push(x)[0] == names[0]);
        assert(names.push(x).drop_first() =~= names.drop_first().push(x));
        lemma_env_reasons_push(names.drop_first(), x, ctx);
        let head = if !spec_env_satisfied(names[0]@, ctx) {
            seq![env_reason(names[0]@)]
        } else {
            Seq::<Seq<char>>::empty()
        };
        assert(head + (env_reasons(names.drop_first(), ctx) + unit) =~= (head + env_reasons(
            names.drop_first(),
            ctx,
        )) + unit);
    }
}

proof fn lemma_config_reasons_push(keys: Seq<String>, x: String, ctx: EligibilityContext)
    ensures
        config_reasons(keys.push(x), ctx) == config_reasons(keys, ctx) + (if !seq_contains_str(
            ctx.config_keys@,
            x@,
        ) {
            seq![config_reason(x@)]
        } else {
            Seq::<Seq<char>>::empty()
        }),
    decreases keys.len(),
{
    let unit = if !seq_contains_str(ctx.config_keys@, x@) {
        seq![config_reason(x@)]
    } else {
        Seq::<Seq<char>>::empty()
    };
    if keys.len() == 0 {
        let pushed = keys.push(x);
        assert(pushed[0] == x);
        assert(pushed.drop_first() =~= Seq::<String>::empty());
        assert(config_reasons(pushed.drop_first(), ctx) == Seq::<Seq<char>>::empty());
        assert(config_reasons(pushed, ctx) == unit + Seq::<Seq<char>>::empty());
        assert(unit + Seq::<Seq<char>>::empty() =~= Seq::<Seq<char>>::empty() + unit);
        assert(config_reasons(keys, ctx) == Seq::<Seq<char>>::empty());
    } else {
        assert(keys.push(x)[0] == keys[0]);
        assert(keys.push(x).drop_first() =~= keys.drop_first().push(x));
        lemma_config_reasons_push(keys.drop_first(), x, ctx);
        let head = if !seq_contains_str(ctx.config_keys@, keys[0]@) {
            seq![config_reason(keys[0]@)]
        } else {
            Seq::<Seq<char>>::empty()
        };
        assert(head + (config_reasons(keys.drop_first(), ctx) + unit) =~= (head + config_reasons(
            keys.drop_first(),
            ctx,
        )) + unit);
    }
}

fn os_reason_string(required: SkillOs, current: SkillOs) -> (r: String)
    ensures
        r@ == os_reason(required, current),
{
    let mut m = "requires os=".to_owned();
    m.append(required.name());
    m.append(", current os=");
    m.append(current.name());
    proof {
        assert(m@ =~= os_reason(required, current));
    }
    m
}

fn bin_reason_string(bin: &str) -> (r: String)
    ensures
        r@ == bin_reason(bin@),
{
    let mut m = "missing required binary '".to_owned();
    m.append(bin);
    m.append("' on PATH");
    proof {
        assert(m@ =~= bin_reason(bin@));
    }
    m
}

fn any_bins_reason_string(any_bins: &Vec<String>) -> (r: String)
    ensures
        r@ == any_bins_reason(any_bins@),
{
    let joined = join_strings(any_bins, ", ");
    let mut m = "missing any required binary on PATH (".to_owned();
    m.append(joined.as_str());
    m.append(")");
    proof {
        assert(m@ =~= any_bins_reason(any_bins@));
    }
    m
}

fn env_reason_string(name: &str) -> (r: String)
    ensures
        r@ == env_reason(name@),
{
    let mut m = "missing required env '".to_owned();
    m.append(name);
    m.append("'");
    proof {
        assert(m@ =~= env_reason(name@));
    }
    m
}

fn config_reason_string(key: &str) -> (r: String)
    ensures
        r@ == config_reason(key@),
{
    let mut m = "requires.config '".to_owned();
    m.append(key);
    m.append("' unsupported currently (no matching config found)");
    proof {
        assert(m@ =~= config_reason(key@));
    }
    m
}

/// Evaluates a skill's gating metadata against the snapshot.
///
/// Absent metadata and the `always` flag are both unconditionally
/// eligible with no reasons; otherwise the skill is eligible exactly when
/// every declared requirement is met, and the returned list holds one
/// reason per unmet requirement, in checking order.
pub fn evaluate_skill_eligibility(gating: Option<&SkillGating>, ctx: &EligibilityContext) -> (r: (
    bool,
    Vec<String>,
))
    ensures
        match gating {
            None => r.0 && r.1@.len() == 0,
            Some(g) => views_of(r.1@) == spec_eligibility_reasons(*g, *ctx) && r.0 == (
            spec_eligibility_reasons(*g, *ctx).len() == 0),
        },
{
    let g = match gating {
        None => {
            return (true, Vec::new());
        },
        Some(g) => g,
    };
    if g.always {
        return (true, Vec::new());
    }
    let mut reasons: Vec<String> = Vec::new();

    // platform
    match &g.os {
        Some(required) => {
            if *required != ctx.os {
                reasons.push(os_reason_string(*required, ctx.os));
            }
        },
        None => {},
    }
    proof {
        assert(views_of(reasons@) =~= os_reasons(*g, *ctx));
    }

    // required executables
    let ghost after_os = views_of(reasons@);
    let bn: usize = g.requires.bins.len();
    let mut i: usize = 0;
    while i < bn
        invariant
            bn == g.requires.bins@.len(),
            i <= bn,
            views_of(reasons@) == after_os + bins_reasons(g.requires.bins@.take(i as int), *ctx),
        decreases bn - i,
    {
        let ghost before = views_of(reasons@);
        let ghost prefix = g.requires.bins@.take(i as int);
        let resolved = find_binary_in_path(g.requires.bins[i].as_str(), ctx);
        if !resolved {
            reasons.push(bin_reason_string(g.requires.bins[i].as_str()));
        }
        proof {
            assert(g.requires.bins@.take(i as int + 1) =~= prefix.push(g.requires.bins@[i as int]));
            lemma_bins_reasons_push(prefix, g.requires.bins@[i as int], *ctx);
            if !resolved {
                assert(views_of(reasons@) =~= before.push(bin_reason(g.requires.bins@[i as int]@)));
                assert(before.push(bin_reason(g.requires.bins@[i as int]@)) =~= before + seq![
                    bin_reason(g.requires.bins@[i as int]@),
                ]);
                assert(after_os + (bins_reasons(prefix, *ctx) + seq![
                    bin_reason(g.requires.bins@[i as int]@),
                ]) =~= (after_os + bins_reasons(prefix, *ctx)) + seq![
                    bin_reason(g.requires.bins@[i as int]@),
                ]);
            } else {
                assert(bins_reasons(prefix, *ctx) + Seq::<Seq<char>>::empty() =~= bins_reasons(
                    prefix,
                    *ctx,
                ));
            }
        }
        i = i + 1;
    }
    proof {
        assert(g.requires.bins@.take(bn as int) =~= g.requires.bins@);
    }

    // alternative executables
    let ghost after_bins = views_of(reasons@);
    let an: usize = g.requires.any_bins.len();
    if an > 0 {
        let mut found = false;
        let mut j: usize = 0;
        while j < an
            invariant
                an == g.requires.any_bins@.len(),
                j <= an,
                found ==> exists|k: int|
                    0 <= k < an && spec_bin_resolves(g.requires.any_bins@[k]@, *ctx),
                !found ==> forall|k: int|
                    0 <= k < j ==> !spec_bin_resolves(g.requires.any_bins@[k]@, *ctx),
            decreases an - j,
        {
            if !found && find_binary_in_path(g.requires.any_bins[j].as_str(), ctx) {
                found = true;
            }
            j = j + 1;
        }
        let ghost before_any = views_of(reasons@);
        if !found {
            reasons.push(any_bins_reason_string(&g.requires.any_bins));
        }
        proof {
            if !found {
                assert(views_of(reasons@) =~= before_any.push(
                    any_bins_reason(g.requires.any_bins@),
                ));
                assert(before_any.push(any_bins_reason(g.requires.any_bins@)) =~= before_any
                    + any_bins_reasons(g.requires.any_bins@, *ctx));
            } else {
                assert(any_bins_reasons(g.requires.any_bins@, *ctx) =~= Seq::<Seq<char>>::empty());
            }
        }
    }
    proof {
        if an == 0 {
            assert(any_bins_reasons(g.requires.any_bins@, *ctx) =~= Seq::<Seq<char>>::empty());
        }
        assert(views_of(reasons@) =~= after_bins + any_bins_reasons(g.requires.any_bins@, *ctx));
    }

    // required environment variables
    let ghost after_any = views_of(reasons@);
    let en: usize = g.requires.env.len();
    let mut p: usize = 0;
    while p < en
        invariant
            en == g.requires.env@.len(),
            p <= en,
            views_of(reasons@) == after_any + env_reasons(g.requires.env@.take(p as int), *ctx),
        decreases en - p,
    {
        let ghost before = views_of(reasons@);
        let ghost prefix = g.requires.env@.take(p as int);
        let name = &g.requires.env[p];
        let satisfied = match env_lookup(&ctx.env, name.as_str()) {
            Some(v) => trim_str(v.as_str()).as_str().unicode_len() > 0,
            None => false,
        };
        if !satisfied {
            reasons.push(env_reason_string(name.as_str()));
        }
        proof {
            assert(satisfied == spec_env_satisfied(g.requires.env@[p as int]@, *ctx));
            assert(g.requires.env@.take(p as int + 1) =~= prefix.push(g.requires.env@[p as int]));
            lemma_env_reasons_push(prefix, g.requires.env@[p as int], *ctx);
            if !satisfied {
                assert(views_of(reasons@) =~= before.push(env_reason(g.requires.env@[p as int]@)));
                assert(before.push(env_reason(g.requires.env@[p as int]@)) =~= before + seq![
                    env_reason(g.requires.env@[p as int]@),
                ]);
                assert(after_any + (env_reasons(prefix, *ctx) + seq![
                    env_reason(g.requires.env@[p as int]@),
                ]) =~= (after_any + env_reasons(prefix, *ctx)) + seq![
                    env_reason(g.requires.env@[p as int]@),
                ]);
            } else {
                assert(env_reasons(prefix, *ctx) + Seq::<Seq<char>>::empty() =~= env_reasons(
                    prefix,
                    *ctx,
                ));
            }
        }
        p = p + 1;
    }
    proof {
        assert(g.requires.env@.take(en as int) =~= g.requires.env@);
    }

    // configuration keys
    let ghost after_env = views_of(reasons@);
    let cn: usize = g.requires.config.len();
    let mut q: usize = 0;
    while q < cn
        invariant
            cn == g.requires.config@.len(),
            q <= cn,
            views_of(reasons@) == after_env + config_reasons(
                g.requires.config@.take(q as int),
                *ctx,
            ),
        decreases cn - q,
    {
        let ghost before = views_of(reasons@);
        let ghost prefix = g.requires.config@.take(q as int);
        let key = &g.requires.config[q];
        let resolvable = contains_string(&ctx.config_keys, key.as_str());
        if !resolvable {
            reasons.push(config_reason_string(key.as_str()));
        }
        proof {
            assert(g.requires.config@.take(q as int + 1) =~= prefix.push(
                g.requires.config@[q as int],
            ));
            lemma_config_reasons_push(prefix, g.requires.config@[q as int], *ctx);
            if !resolvable {
                assert(views_of(reasons@) =~= before.push(
                    config_reason(g.requires.config@[q as int]@),
                ));
                assert(before.push(config_reason(g.requires.config@[q as int]@)) =~= before + seq![
                    config_reason(g.requires.config@[q as int]@),
                ]);
                assert(after_env + (config_reasons(prefix, *ctx) + seq![
                    config_reason(g.requires.config@[q as int]@),
                ]) =~= (after_env + config_reasons(prefix, *ctx)) + seq![
                    config_reason(g.requires.config@[q as int]@),
                ]);
            } else {
                assert(config_reasons(prefix, *ctx) + Seq::<Seq<char>>::empty() =~= config_reasons(
                    prefix,
                    *ctx,
                ));
            }
        }
        q = q + 1;
    }
    proof {
        assert(g.requires.config@.take(cn as int) =~= g.requires.config@);
        assert(views_of(reasons@) =~= spec_eligibility_reasons(*g, *ctx));
        assert(views_of(reasons@).len() == reasons@.len());
    }

    let eligible = reasons.len() == 0;
    (eligible, reasons)
}

} // verus!
