//! Bulk skill discovery: one skill per skill directory with a
//! recognized manifest, the structured format taking precedence over the
//! simple one, directories with no manifest or a malformed structured
//! manifest silently skipped; and the community documents of the
//! synchronized repository, one skill per markdown file.

use vstd::prelude::*;
use crate::eligibility::{EligibilityContext, spec_join_path, join_path};
use crate::manifest::{load_skill_toml, skill_matches_toml, spec_toml_yields};
use crate::skill::{
    Skill, load_open_skill_md, load_skill_md, skill_matches_md, skill_matches_open_md,
};
use crate::text::{spec_eq_ignore_ascii_case, eq_ignore_ascii_case};

verus! {

/// What the file system shows of one immediate subdirectory of a skills
/// root: the directory's name and path, and the contents of its two
/// candidate manifest files, where present.
#[derive(Debug, Clone)]
pub struct SkillDirEntry {
    pub dir_name: String,
    pub dir_path: String,
    /// The text of `SKILL.toml`, when the file exists.
    pub toml_manifest: Option<String>,
    /// The text of `SKILL.md`, when the file exists.
    pub md_manifest: Option<String>,
}

/// Whether the directory yields a skill: with a structured manifest
/// present, exactly when that manifest is well-formed — the simple
/// manifest is then never consulted; otherwise, when a simple manifest
/// exists, which always yields.
pub open spec fn entry_yields(e: SkillDirEntry) -> bool {
    match e.toml_manifest {
        Some(c) => spec_toml_yields(c@),
        None => e.md_manifest is Some,
    }
}

/// The skill a directory yields, related to the manifest it came from.
pub open spec fn entry_skill_ok(e: SkillDirEntry, s: Skill, ctx: EligibilityContext) -> bool {
    match e.toml_manifest {
        Some(c) => skill_matches_toml(s, spec_join_path(e.dir_path@, "SKILL.toml"@), c@, ctx),
        None => e.md_manifest matches Some(m) && skill_matches_md(
            s,
            spec_join_path(e.dir_path@, "SKILL.md"@),
            e.dir_name@,
            m@,
        ),
    }
}

/// The skills are exactly what the directory entries yield, in order:
/// each yielding entry contributes one skill, every other entry none.
pub open spec fn discovery_ok(
    entries: Seq<SkillDirEntry>,
    skills: Seq<Skill>,
    ctx: EligibilityContext,
) -> bool
    decreases entries.len(),
{
    if entries.len() == 0 {
        skills.len() == 0
    } else if entry_yields(entries[0]) {
        skills.len() > 0 && entry_skill_ok(entries[0], skills[0], ctx) && discovery_ok(
            entries.drop_first(),
            skills.drop_first(),
            ctx,
        )
    } else {
        discovery_ok(entries.drop_first(), skills, ctx)
    }
}

proof fn lemma_discovery_push_yield(
    es: Seq<SkillDirEntry>,
    ss: Seq<Skill>,
    e: SkillDirEntry,
    s: Skill,
    ctx: EligibilityContext,
)
    requires
        discovery_ok(es, ss, ctx),
        entry_yields(e),
        entry_skill_ok(e, s, ctx),
    ensures
        discovery_ok(es.push(e), ss.push(s), ctx),
    decreases es.len(),
{
    if es.len() == 0 {
        assert(ss.len() == 0);
        assert(es.push(e)[0] == e);
        assert(ss.push(s)[0] == s);
        assert(es.push(e).drop_first() =~= Seq::<SkillDirEntry>::empty());
        assert(ss.push(s).drop_first() =~= Seq::<Skill>::empty());
        assert(discovery_ok(Seq::<SkillDirEntry>::empty(), Seq::<Skill>::empty(), ctx));
    } else if entry_yields(es[0]) {
        assert(es.push(e)[0] == es[0]);
        assert(ss.push(s)[0] == ss[0]);
        assert(es.push(e).drop_first() =~= es.drop_first().push(e));
        assert(ss.push(s).drop_first() =~= ss.drop_first().push(s));
        lemma_discovery_push_yield(es.drop_first(), ss.drop_first(), e, s, ctx);
    } else {
        assert(es.push(e)[0] == es[0]);
        assert(es.push(e).drop_first() =~= es.drop_first().push(e));
        lemma_discovery_push_yield(es.drop_first(), ss, e, s, ctx);
    }
}

proof fn lemma_discovery_push_skip(
    es: Seq<SkillDirEntry>,
    ss: Seq<Skill>,
    e: SkillDirEntry,
    ctx: EligibilityContext,
)
    requires
        discovery_ok(es, ss, ctx),
        !entry_yields(e),
    ensures
        discovery_ok(es.push(e), ss, ctx),
    decreases es.len(),
{
    if es.len() == 0 {
        assert(es.push(e)[0] == e);
        assert(es.push(e).drop_first() =~= Seq::<SkillDirEntry>::empty());
        assert(discovery_ok(Seq::<SkillDirEntry>::empty(), ss, ctx));
    } else if entry_yields(es[0]) {
        assert(es.push(e)[0] == es[0]);
        assert(es.push(e).drop_first() =~= es.drop_first().push(e));
        lemma_discovery_push_skip(es.drop_first(), ss.drop_first(), e, ctx);
    } else {
        assert(es.push(e)[0] == es[0]);
        assert(es.push(e).drop_first() =~= es.drop_first().push(e));
        lemma_discovery_push_skip(es.drop_first(), ss, e, ctx);
    }
}

/// Scans the listed skill directories and yields one skill per
/// directory with a recognized manifest, in directory order.  The
/// structured manifest is used exclusively when it exists; a directory
/// whose structured manifest is malformed is skipped without failing
/// the scan of the others.
pub fn load_skills_from_directory(entries: &Vec<SkillDirEntry>, ctx: &EligibilityContext) -> (r:
    Vec<Skill>)
    ensures
        discovery_ok(entries@, r@, *ctx),
{
    let n: usize = entries.len();
    let mut out: Vec<Skill> = Vec::new();
    let mut i: usize = 0;
    proof {
        assert(entries@.take(0) =~= Seq::<SkillDirEntry>::empty());
    }
    while i < n
        invariant
            n == entries@.len(),
            i <= n,
            discovery_ok(entries@.take(i as int), out@, *ctx),
        decreases n - i,
    {
        let e = &entries[i];
        let ghost prefix = entries@.take(i as int);
        match &e.toml_manifest {
            Some(c) => {
                let p = join_path(e.dir_path.as_str(), "SKILL.toml");
                match load_skill_toml(p.as_str(), c.as_str(), ctx) {
                    Some(s) => {
                        proof {
                            lemma_discovery_push_yield(prefix, out@, entries@[i as int], s, *ctx);
                        }
                        out.push(s);
                    },
                    None => {
                        proof {
                            lemma_discovery_push_skip(prefix, out@, entries@[i as int], *ctx);
                        }
                    },
                }
            },
            None => {
                match &e.md_manifest {
                    Some(m) => {
                        let p = join_path(e.dir_path.as_str(), "SKILL.md");
                        let s = load_skill_md(p.as_str(), e.dir_name.as_str(), m.as_str());
                        proof {
                            lemma_discovery_push_yield(prefix, out@, entries@[i as int], s, *ctx);
                        }
                        out.push(s);
                    },
                    None => {
                        proof {
                            lemma_discovery_push_skip(prefix, out@, entries@[i as int], *ctx);
                        }
                    },
                }
            },
        }
        proof {
            assert(entries@.take(i as int + 1) =~= prefix.push(entries@[i as int]));
        }
        i = i + 1;
    }
    proof {
        assert(entries@.take(n as int) =~= entries@);
    }
    out
}

/// A directory holding both a structured and a simple manifest yields
/// exactly one skill, and its fields come from the structured manifest:
/// the structured format always wins.
pub proof fn lemma_structured_manifest_wins(
    e: SkillDirEntry,
    skills: Seq<Skill>,
    ctx: EligibilityContext,
)
    requires
        e.toml_manifest matches Some(c) && spec_toml_yields(c@),
        e.md_manifest is Some,
        discovery_ok(seq![e], skills, ctx),
    ensures
        skills.len() == 1,
        e.toml_manifest matches Some(c) && skill_matches_toml(
            skills[0],
            spec_join_path(e.dir_path@, "SKILL.toml"@),
            c@,
            ctx,
        ),
{
    assert(seq![e][0] == e);
    assert(seq![e].drop_first() =~= Seq::<SkillDirEntry>::empty());
    assert(discovery_ok(Seq::<SkillDirEntry>::empty(), skills.drop_first(), ctx));
    assert(skills.drop_first().len() == 0);
}

/// A directory whose structured manifest is malformed yields no skill,
/// and the rest of the scan is unaffected: the failure never surfaces
/// to the caller.
pub proof fn lemma_malformed_manifest_skipped(
    e: SkillDirEntry,
    rest: Seq<SkillDirEntry>,
    skills: Seq<Skill>,
    ctx: EligibilityContext,
)
    requires
        e.toml_manifest matches Some(c) && !spec_toml_yields(c@),
        discovery_ok(seq![e] + rest, skills, ctx),
    ensures
        discovery_ok(rest, skills, ctx),
        rest.len() == 0 ==> skills.len() == 0,
{
    assert((seq![e] + rest)[0] == e);
    assert(!entry_yields(e));
    assert((seq![e] + rest).drop_first() =~= rest);
}

/// What the file system shows of one top-level file of the synchronized
/// community repository.
#[derive(Debug, Clone)]
pub struct OpenSkillFile {
    pub file_name: String,
    pub path: String,
    pub content: String,
}

/// The position of the dot that separates the file name's stem from its
/// extension: the last dot, except a dot at the start, which marks a
/// hidden file rather than an extension.
pub open spec fn spec_ext_dot(name: Seq<char>) -> Option<int> {
    if exists|k: int| 1 <= k < name.len() && name[k] == '.' {
        Some(choose|k: int| 1 <= k < name.len() && name[k] == '.' && (forall|j: int|
            k < j < name.len() ==> name[j] != '.'))
    } else {
        None
    }
}

/// The file name's stem, as `Path::file_stem` yields it.
pub open spec fn spec_file_stem(name: Seq<char>) -> Seq<char> {
    match spec_ext_dot(name) {
        Some(k) => name.take(k),
        None => name,
    }
}

/// The file name's extension, as `Path::extension` yields it.
pub open spec fn spec_file_ext(name: Seq<char>) -> Option<Seq<char>> {
    match spec_ext_dot(name) {
        Some(k) => Some(name.skip(k + 1)),
        None => None,
    }
}

/// Whether a repository file becomes a skill: a markdown extension,
/// compared without regard to ASCII case, and not the repository's
/// `README.md`, also matched case-insensitively.
pub open spec fn open_file_yields(name: Seq<char>) -> bool {
    &&& spec_file_ext(name) matches Some(e) && spec_eq_ignore_ascii_case(e, "md"@)
    &&& !spec_eq_ignore_ascii_case(name, "README.md"@)
}

/// Splits a file name into its stem and extension.
fn split_file_name(name: &str) -> (r: (String, Option<String>))
    ensures
        r.0@ == spec_file_stem(name@),
        match r.1 {
            Some(e) => spec_file_ext(name@) == Some(e@),
            None => spec_file_ext(name@) is None,
        },
{
    let n: usize = name.unicode_len();
    let mut k: usize = n;
    let mut found = false;
    let mut j: usize = n;
    while j > 1
        invariant
            n == name@.len(),
            1 <= j <= n || (n < 1 && j == n),
            found ==> 1 <= k < n && name@[k as int] == '.' && (forall|t: int|
                k < t < n ==> name@[t] != '.'),
            !found ==> forall|t: int| j <= t < n ==> name@[t] != '.',
        decreases j,
    {
        j = j - 1;
        if !found && name.get_char(j) == '.' {
            k = j;
            found = true;
        }
    }
    if found {
        proof {
            assert(1 <= k < n && name@[k as int] == '.');
            assert(spec_ext_dot(name@) == Some(k as int)) by {
                assert(name@[k as int] == '.' && (forall|t: int| k < t < n ==> name@[t] != '.'));
                let kk = choose|kk: int|
                    1 <= kk < name@.len() && name@[kk] == '.' && (forall|t: int|
                        kk < t < name@.len() ==> name@[t] != '.');
                assert(1 <= kk < name@.len() && name@[kk] == '.');
                if kk < k {
                    assert(name@[k as int] == '.');
                    assert(false);
                }
                if kk > k {
                    assert(name@[kk] == '.');
                    assert(false);
                }
            }
        }
        let stem = name.substring_char(0, k).to_owned();
        let ext = name.substring_char(k + 1, n).to_owned();
        proof {
            assert(stem@ =~= spec_file_stem(name@));
            assert(ext@ =~= name@.skip(k as int + 1));
        }
        (stem, Some(ext))
    } else {
        proof {
            if exists|t: int| 1 <= t < name@.len() && name@[t] == '.' {
                let t = choose|t: int| 1 <= t < name@.len() && name@[t] == '.';
                assert(false);
            }
            assert(spec_ext_dot(name@) is None);
        }
        (name.to_owned(), None)
    }
}

/// How a skill built from a community document relates to the file it
/// came from.
pub open spec fn open_skill_ok(f: OpenSkillFile, s: Skill) -> bool {
    skill_matches_open_md(s, f.path@, spec_file_stem(f.file_name@), f.content@)
}

/// The skills are exactly what the repository files yield, in order.
pub open spec fn open_discovery_ok(files: Seq<OpenSkillFile>, skills: Seq<Skill>) -> bool
    decreases files.len(),
{
    if files.len() == 0 {
        skills.len() == 0
    } else if open_file_yields(files[0].file_name@) {
        skills.len() > 0 && open_skill_ok(files[0], skills[0]) && open_discovery_ok(
            files.drop_first(),
            skills.drop_first(),
        )
    } else {
        open_discovery_ok(files.drop_first(), skills)
    }
}

proof fn lemma_open_push_yield(files: Seq<OpenSkillFile>, ss: Seq<Skill>, f: OpenSkillFile, s: Skill)
    requires
        open_discovery_ok(files, ss),
        open_file_yields(f.file_name@),
        open_skill_ok(f, s),
    ensures
        open_discovery_ok(files.push(f), ss.push(s)),
    decreases files.len(),
{
    if files.len() == 0 {
        assert(files.push(f)[0] == f);
        assert(ss.push(s)[0] == s);
        assert(files.push(f).drop_first() =~= Seq::<OpenSkillFile>::empty());
        assert(ss.push(s).drop_first() =~= Seq::<Skill>::empty());
        assert(open_discovery_ok(Seq::<OpenSkillFile>::empty(), Seq::<Skill>::empty()));
    } else if open_file_yields(files[0].file_name@) {
        assert(files.push(f)[0] == files[0]);
        assert(ss.push(s)[0] == ss[0]);
        assert(files.push(f).drop_first() =~= files.drop_first().push(f));
        assert(ss.push(s).drop_first() =~= ss.drop_first().push(s));
        lemma_open_push_yield(files.drop_first(), ss.drop_first(), f, s);
    } else {
        assert(files.push(f)[0] == files[0]);
        assert(files.push(f).drop_first() =~= files.drop_first().push(f));
        lemma_open_push_yield(files.drop_first(), ss, f, s);
    }
}

proof fn lemma_open_push_skip(files: Seq<OpenSkillFile>, ss: Seq<Skill>, f: OpenSkillFile)
    requires
        open_discovery_ok(files, ss),
        !open_file_yields(f.file_name@),
    ensures
        open_discovery_ok(files.push(f), ss),
    decreases files.len(),
{
    if files.len() == 0 {
        assert(files.push(f)[0] == f);
        assert(files.push(f).drop_first() =~= Seq::<OpenSkillFile>::empty());
        assert(open_discovery_ok(Seq::<OpenSkillFile>::empty(), ss));
    } else if open_file_yields(files[0].file_name@) {
        assert(files.push(f)[0] == files[0]);
        assert(files.push(f).drop_first() =~= files.drop_first().push(f));
        lemma_open_push_skip(files.drop_first(), ss.drop_first(), f);
    } else {
        assert(files.push(f)[0] == files[0]);
        assert(files.push(f).drop_first() =~= files.drop_first().push(f));
        lemma_open_push_skip(files.drop_first(), ss, f);
    }
}

/// Builds skills from the synchronized repository's top-level files:
/// every markdown document except the repository's `README.md` becomes
/// one skill named after the file's stem.
pub fn load_open_skills(files: &Vec<OpenSkillFile>) -> (r: Vec<Skill>)
    ensures
        open_discovery_ok(files@, r@),
{
    let n: usize = files.len();
    let mut out: Vec<Skill> = Vec::new();
    let mut i: usize = 0;
    proof {
        assert(files@.take(0) =~= Seq::<OpenSkillFile>::empty());
    }
    while i < n
        invariant
            n == files@.len(),
            i <= n,
            open_discovery_ok(files@.take(i as int), out@),
        decreases n - i,
    {
        let f = &files[i];
        let ghost prefix = files@.take(i as int);
        let (stem, ext) = split_file_name(f.file_name.as_str());
        let is_md = match &ext {
            Some(e) => eq_ignore_ascii_case(e.as_str(), "md"),
            None => false,
        };
        let is_readme = eq_ignore_ascii_case(f.file_name.as_str(), "README.md");
        if is_md && !is_readme {
            let s = load_open_skill_md(f.path.as_str(), stem.as_str(), f.content.as_str());
            proof {
                lemma_open_push_yield(prefix, out@, files@[i as int], s);
            }
            out.push(s);
        } else {
            proof {
                lemma_open_push_skip(prefix, out@, files@[i as int]);
            }
        }
        proof {
            assert(files@.take(i as int + 1) =~= prefix.push(files@[i as int]));
        }
        i = i + 1;
    }
    proof {
        assert(files@.take(n as int) =~= files@);
    }
    out
}

/// Loads the full skill list: the community skills of the synchronized
/// repository first, then the workspace skills, neither deduplicated
/// against the other.
pub fn load_skills(
    open_files: &Vec<OpenSkillFile>,
    entries: &Vec<SkillDirEntry>,
    ctx: &EligibilityContext,
) -> (r: Vec<Skill>)
    ensures
        exists|k: int|
            0 <= k <= r@.len() && #[trigger] open_discovery_ok(open_files@, r@.take(k))
                && discovery_ok(entries@, r@.skip(k), *ctx),
{
    let mut r = load_open_skills(open_files);
    let ghost open_part = r@;
    let ghost k = r@.len() as int;
    let mut rest = load_skills_from_directory(entries, ctx);
    let ghost w = rest@;
    r.append(&mut rest);
    proof {
        assert(r@.take(k) =~= open_part);
        assert(r@.skip(k) =~= w);
        assert(open_discovery_ok(open_files@, r@.take(k)));
    }
    r
}

/// The skills directory under a workspace root.
pub fn skills_dir(workspace_dir: &str) -> (r: String)
    ensures
        r@ == spec_join_path(workspace_dir@, "skills"@),
{
    join_path(workspace_dir, "skills")
}

/// The position of the path's last separator, if it has one.
pub open spec fn spec_last_slash(s: Seq<char>) -> Option<int> {
    if exists|k: int| 0 <= k < s.len() && s[k] == '/' {
        Some(choose|k: int| 0 <= k < s.len() && s[k] == '/' && (forall|j: int|
            k < j < s.len() ==> s[j] != '/'))
    } else {
        None
    }
}

/// The companion configuration file's path: `config.toml` beside the
/// workspace directory — under the workspace's textual parent, or bare
/// when the workspace path has no parent to speak of.
pub open spec fn spec_workspace_config_path(w: Seq<char>) -> Seq<char> {
    match spec_last_slash(w) {
        None => "config.toml"@,
        Some(k) => if k == 0 {
            spec_join_path(seq!['/'], "config.toml"@)
        } else {
            spec_join_path(w.take(k), "config.toml"@)
        },
    }
}

/// Resolves the companion configuration file beside the workspace.
pub fn workspace_config_path(workspace_dir: &str) -> (r: String)
    ensures
        r@ == spec_workspace_config_path(workspace_dir@),
{
    let n: usize = workspace_dir.unicode_len();
    let mut k: usize = n;
    let mut found = false;
    let mut j: usize = n;
    while j > 0
        invariant
            n == workspace_dir@.len(),
            j <= n,
            found ==> 0 <= k < n && workspace_dir@[k as int] == '/' && (forall|t: int|
                k < t < n ==> workspace_dir@[t] != '/'),
            !found ==> forall|t: int| j <= t < n ==> workspace_dir@[t] != '/',
        decreases j,
    {
        j = j - 1;
        if !found && workspace_dir.get_char(j) == '/' {
            k = j;
            found = true;
        }
    }
    if found {
        proof {
            assert(spec_last_slash(workspace_dir@) == Some(k as int)) by {
                assert(workspace_dir@[k as int] == '/');
                let kk = choose|kk: int|
                    0 <= kk < workspace_dir@.len() && workspace_dir@[kk] == '/' && (forall|t: int|
                        kk < t < workspace_dir@.len() ==> workspace_dir@[t] != '/');
                if kk < k {
                    assert(workspace_dir@[k as int] == '/');
                    assert(false);
                }
                if kk > k {
                    assert(workspace_dir@[kk] == '/');
                    assert(false);
                }
            }
        }
        if k == 0 {
            let r = "/config.toml".to_owned();
            proof {
                reveal_strlit("/config.toml");
                reveal_strlit("/");
                reveal_strlit("config.toml");
                assert(r@ =~= spec_join_path(seq!['/'], "config.toml"@));
            }
            r
        } else {
            let parent = workspace_dir.substring_char(0, k);
            proof {
                assert(parent@ =~= workspace_dir@.take(k as int));
            }
            join_path(parent, "config.toml")
        }
    } else {
        proof {
            if exists|t: int|
                0 <= t < workspace_dir@.len() && workspace_dir@[t] == '/' {
                let t = choose|t: int|
                    0 <= t < workspace_dir@.len() && workspace_dir@[t] == '/';
                assert(false);
            }
            assert(spec_last_slash(workspace_dir@) is None);
        }
        "config.toml".to_owned()
    }
}

} // verus!
