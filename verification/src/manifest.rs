//! The structured manifest format, parsed through the `toml` crate.
//!
//! The manifest text is TOML: a `[skill]` table with the metadata, an
//! optional `[[tools]]` list, an optional `prompts` list, and optional
//! gating metadata under `[metadata.openclaw]` or
//! `[skill.metadata.openclaw]`, the former taking precedence.  Parsing
//! the text is the `toml` crate's work and stands behind trusted
//! wrappers whose results are named; everything that selects, validates
//! and assembles the skill from the parsed facets is verified.

use vstd::prelude::*;
use std::collections::HashMap;
use crate::eligibility::{
    EligibilityContext, SkillGating, SkillOs, SkillRequires, evaluate_skill_eligibility,
    spec_eligibility_reasons,
};
use crate::skill::{Skill, SkillTool};
use crate::text::{str_eq, views_of};

verus! {

/// The scalar core of a `[skill]` table: the required name and
/// description, and the optional version and author.
#[derive(Debug, Clone)]
pub struct ManifestMeta {
    pub name: String,
    pub description: String,
    pub version: Option<String>,
    pub author: Option<String>,
}

/// The scalar core of a gating table, the platform tag still a string.
#[derive(Debug, Clone)]
pub struct GatingCore {
    pub always: bool,
    pub os: Option<String>,
}

/// The `[skill]` table's scalar fields; `None` when the text or any of
/// them is malformed.
pub uninterp spec fn manifest_meta_of(content: Seq<char>) -> Option<ManifestMeta>;

/// The `[skill]` table's `tags` list; `None` when the text or the list
/// is malformed, the empty list when absent.
pub uninterp spec fn manifest_tags_of(content: Seq<char>) -> Option<Vec<String>>;

/// How many tools the manifest's `[[tools]]` list declares; `None`
/// when the text or the list is malformed, zero when absent.
pub uninterp spec fn manifest_tool_count_of(content: Seq<char>) -> Option<usize>;

/// The name, description, kind and command of one declared tool;
/// `None` when the text, the list, the index or that tool is
/// malformed.
pub uninterp spec fn manifest_tool_fields_of(content: Seq<char>, index: usize) -> Option<
    (String, String, String, String),
>;

/// The argument map of one declared tool; `None` when malformed, the
/// empty map when absent.
pub uninterp spec fn manifest_tool_args_of(content: Seq<char>, index: usize) -> Option<
    HashMap<String, String>,
>;

/// The `prompts` list the manifest text yields; `None` when the text or
/// the list is malformed, the empty list when absent.
pub uninterp spec fn manifest_prompts_of(content: Seq<char>) -> Option<Vec<String>>;

/// The gating table's scalar core at one of its two locations: `None`
/// when the text or the table is malformed, `Some(None)` when absent.
pub uninterp spec fn manifest_gating_of(content: Seq<char>, top: bool) -> Option<
    Option<GatingCore>,
>;

/// The gating table's configuration identifiers — skill key and
/// primary environment variable — at one location; `None` when the
/// table is absent or they are malformed.
pub uninterp spec fn manifest_gating_ids_of(content: Seq<char>, top: bool) -> Option<
    (Option<String>, Option<String>),
>;

/// One requirement list of the gating table at the given location:
/// `None` when absent or malformed, treated as empty by the caller.
pub uninterp spec fn manifest_gating_list_of(content: Seq<char>, top: bool, key: Seq<char>) -> Option<
    Vec<String>,
>;

/// Relies on `toml::from_str::<toml::Value>` and `toml::Value`'s `get`
/// and `as_str` accessors: the `[skill]` table's scalar fields, its
/// `name` and `description` required to be strings.
#[verifier::external_body]
fn manifest_meta(content: &str) -> (r: Option<ManifestMeta>)
    ensures
        r == manifest_meta_of(content@),
{
    let doc: toml::Value = toml::from_str(content).ok()?;
    let s = doc.get("skill")?;
    let version = match s.get("version") { None => None, Some(v) => Some(v.as_str()?.to_string()) };
    let author = match s.get("author") { None => None, Some(v) => Some(v.as_str()?.to_string()) };
    let name = s.get("name")?.as_str()?.to_string();
    let description = s.get("description")?.as_str()?.to_string();
    Some(ManifestMeta { name, description, version, author })
}

/// Relies on `toml::from_str::<toml::Value>` and `toml::Value`'s `get`,
/// `as_str` and `as_array` accessors: the `[skill]` table's `tags`,
/// required to be a list of strings when present.
#[verifier::external_body]
fn manifest_tags(content: &str) -> (r: Option<Vec<String>>)
    ensures
        r == manifest_tags_of(content@),
{
    let doc: toml::Value = toml::from_str(content).ok()?;
    let s = doc.get("skill")?;
    match s.get("tags") {
        None => Some(Vec::new()),
        Some(v) => v.as_array()?.iter().map(|t| t.as_str().map(str::to_owned)).collect(),
    }
}

/// Relies on `toml::from_str::<toml::Value>` and `toml::Value`'s `get`
/// and `as_array` accessors: the length of the `[[tools]]` list.
#[verifier::external_body]
fn manifest_tool_count(content: &str) -> (r: Option<usize>)
    ensures
        r == manifest_tool_count_of(content@),
{
    let doc: toml::Value = toml::from_str(content).ok()?;
    match doc.get("tools") {
        None => Some(0),
        Some(v) => Some(v.as_array()?.len()),
    }
}

/// Relies on `toml::from_str::<toml::Value>` and `toml::Value`'s `get`,
/// `as_str` and `as_array` accessors: one tool's four text fields,
/// each required to be a string.
#[verifier::external_body]
fn manifest_tool_fields(content: &str, index: usize) -> (r: Option<
    (String, String, String, String),
>)
    ensures
        r == manifest_tool_fields_of(content@, index),
{
    let doc: toml::Value = toml::from_str(content).ok()?;
    let t = doc.get("tools")?.as_array()?.get(index)?;
    let name = t.get("name")?.as_str()?.to_string();
    let description = t.get("description")?.as_str()?.to_string();
    let kind = t.get("kind")?.as_str()?.to_string();
    let command = t.get("command")?.as_str()?.to_string();
    Some((name, description, kind, command))
}

/// Relies on `toml::from_str::<toml::Value>` and `toml::Value`'s `get`,
/// `as_str`, `as_array` and `as_table` accessors: one tool's `args`
/// table, required to map strings to strings when present.
#[verifier::external_body]
fn manifest_tool_args(content: &str, index: usize) -> (r: Option<HashMap<String, String>>)
    ensures
        r == manifest_tool_args_of(content@, index),
{
    let doc: toml::Value = toml::from_str(content).ok()?;
    let t = doc.get("tools")?.as_array()?.get(index)?;
    match t.get("args") {
        None => Some(HashMap::new()),
        Some(a) => a.as_table()?.iter().map(|(k, v)| Some((k.clone(), v.as_str()?.to_string()))).collect(),
    }
}

/// Relies on `toml::from_str::<toml::Value>` and `toml::Value`'s `get`,
/// `as_str` and `as_array` accessors: the `prompts` list of the
/// manifest, required to be a list of strings when present.
#[verifier::external_body]
fn manifest_prompts(content: &str) -> (r: Option<Vec<String>>)
    ensures
        r == manifest_prompts_of(content@),
{
    let doc: toml::Value = toml::from_str(content).ok()?;
    match doc.get("prompts") {
        None => Some(Vec::new()),
        Some(v) => v.as_array()?.iter().map(|p| p.as_str().map(str::to_owned)).collect(),
    }
}

/// Relies on `toml::from_str::<toml::Value>` and `toml::Value`'s `get`,
/// `as_str` and `as_bool` accessors: the `always` flag and platform
/// tag of the gating table under `[metadata.openclaw]` (`top`) or
/// `[skill.metadata.openclaw]`.
#[verifier::external_body]
fn manifest_gating(content: &str, top: bool) -> (r: Option<Option<GatingCore>>)
    ensures
        r == manifest_gating_of(content@, top),
{
    let doc: toml::Value = toml::from_str(content).ok()?;
    let base = if top { doc.get("metadata") } else { doc.get("skill").and_then(|s| s.get("metadata")) };
    let g = match base.and_then(|m| m.get("openclaw")) {
        None => return Some(None),
        Some(g) => g,
    };
    let always = match g.get("always") { None => false, Some(v) => v.as_bool()? };
    let os = match g.get("os") { None => None, Some(v) => Some(v.as_str()?.to_string()) };
    Some(Some(GatingCore { always, os }))
}

/// Relies on `toml::from_str::<toml::Value>` and `toml::Value`'s `get`
/// and `as_str` accessors: the gating table's `skill_key` and
/// `primary_env`, each required to be a string when present.
#[verifier::external_body]
fn manifest_gating_ids(content: &str, top: bool) -> (r: Option<(Option<String>, Option<String>)>)
    ensures
        r == manifest_gating_ids_of(content@, top),
{
    let doc: toml::Value = toml::from_str(content).ok()?;
    let base = if top { doc.get("metadata") } else { doc.get("skill").and_then(|s| s.get("metadata")) };
    let g = base.and_then(|m| m.get("openclaw"))?;
    let skill_key = match g.get("skill_key") { None => None, Some(v) => Some(v.as_str()?.to_string()) };
    let primary_env = match g.get("primary_env") { None => None, Some(v) => Some(v.as_str()?.to_string()) };
    Some((skill_key, primary_env))
}

/// Relies on `toml::from_str::<toml::Value>` and `toml::Value`'s `get`,
/// `as_str` and `as_array` accessors: one list of the gating table's
/// `requires` block at the given location and key.
#[verifier::external_body]
fn manifest_gating_list(content: &str, top: bool, key: &str) -> (r: Option<Vec<String>>)
    ensures
        r == manifest_gating_list_of(content@, top, key@),
{
    let doc: toml::Value = toml::from_str(content).ok()?;
    let base = if top { doc.get("metadata") } else { doc.get("skill").and_then(|s| s.get("metadata")) };
    let g = base.and_then(|m| m.get("openclaw"))?;
    let arr = g.get("requires").and_then(|r| r.get(key))?;
    arr.as_array()?.iter().map(|v| v.as_str().map(str::to_owned)).collect()
}

/// Whether the declared tools all parse.
pub open spec fn spec_tools_yield(content: Seq<char>) -> bool {
    manifest_tool_count_of(content) matches Some(n) && (forall|i: int|
        0 <= i < n ==> (#[trigger] manifest_tool_fields_of(content, i as usize)) is Some
            && manifest_tool_args_of(content, i as usize) is Some)
}

/// Whether `ts` is exactly the manifest's tool list, in order.
pub open spec fn tools_match(content: Seq<char>, ts: Seq<SkillTool>) -> bool {
    &&& manifest_tool_count_of(content) matches Some(n) && ts.len() == n
    &&& forall|i: int|
        0 <= i < ts.len() ==> {
            &&& (#[trigger] manifest_tool_fields_of(content, i as usize)) matches Some(f) && {
                &&& ts[i].name == f.0
                &&& ts[i].description == f.1
                &&& ts[i].kind == f.2
                &&& ts[i].command == f.3
            }
            &&& manifest_tool_args_of(content, i as usize) == Some(ts[i].args)
        }
}

/// Collects the manifest's tools; any malformed tool fails the whole
/// manifest, as the strict deserialization would.
fn load_manifest_tools(content: &str) -> (r: Option<Vec<SkillTool>>)
    ensures
        match r {
            Some(ts) => spec_tools_yield(content@) && tools_match(content@, ts@),
            None => !spec_tools_yield(content@),
        },
{
    let n = match manifest_tool_count(content) {
        Some(n) => n,
        None => {
            return None;
        },
    };
    let mut out: Vec<SkillTool> = Vec::new();
    let mut i: usize = 0;
    while i < n
        invariant
            manifest_tool_count_of(content@) == Some(n),
            i <= n,
            out@.len() == i,
            forall|j: int|
                0 <= j < i ==> {
                    &&& (#[trigger] manifest_tool_fields_of(content@, j as usize)) matches Some(f)
                        && {
                        &&& out@[j].name == f.0
                        &&& out@[j].description == f.1
                        &&& out@[j].kind == f.2
                        &&& out@[j].command == f.3
                    }
                    &&& manifest_tool_args_of(content@, j as usize) == Some(out@[j].args)
                },
        decreases n - i,
    {
        let fields = match manifest_tool_fields(content, i) {
            Some(f) => f,
            None => {
                proof {
                    assert(manifest_tool_fields_of(content@, (i as int) as usize) is None);
                    assert(!spec_tools_yield(content@));
                }
                return None;
            },
        };
        let args = match manifest_tool_args(content, i) {
            Some(a) => a,
            None => {
                proof {
                    assert(manifest_tool_args_of(content@, (i as int) as usize) is None);
                    assert(!spec_tools_yield(content@));
                }
                return None;
            },
        };
        let (name, description, kind, command) = fields;
        out.push(SkillTool { name, description, kind, command, args });
        i = i + 1;
    }
    Some(out)
}

/// The recognized platform tags of a gating table.
pub open spec fn spec_parse_os(s: Seq<char>) -> Option<SkillOs> {
    if s == "linux"@ {
        Some(SkillOs::Linux)
    } else if s == "darwin"@ {
        Some(SkillOs::Darwin)
    } else if s == "win32"@ {
        Some(SkillOs::Win32)
    } else {
        None
    }
}

pub fn parse_os(s: &str) -> (r: Option<SkillOs>)
    ensures
        r == spec_parse_os(s@),
{
    if str_eq(s, "linux") {
        Some(SkillOs::Linux)
    } else if str_eq(s, "darwin") {
        Some(SkillOs::Darwin)
    } else if str_eq(s, "win32") {
        Some(SkillOs::Win32)
    } else {
        None
    }
}

/// A requirement list defaults to empty when the gating table does not
/// carry it.
pub open spec fn spec_gating_list_or_empty(r: Option<Vec<String>>) -> Seq<String> {
    match r {
        Some(v) => v@,
        None => Seq::empty(),
    }
}

/// The platform tag field: absent stays absent, a recognized tag parses,
/// anything else fails the manifest.
pub open spec fn spec_os_field(os: Option<String>) -> Option<Option<SkillOs>> {
    match os {
        None => Some(None),
        Some(s) => match spec_parse_os(s@) {
            Some(tag) => Some(Some(tag)),
            None => None,
        },
    }
}

/// Whether the gating value `g` is exactly what the manifest declares
/// at the given location, defaults applied.
pub open spec fn gating_matches_at(content: Seq<char>, top: bool, g: SkillGating) -> bool {
    &&& manifest_gating_of(content, top) matches Some(cc) && cc matches Some(core) && {
        &&& g.always == core.always
        &&& Some(g.os) == spec_os_field(core.os)
    }
    &&& manifest_gating_ids_of(content, top) matches Some(ids) && g.skill_key == ids.0
        && g.primary_env == ids.1
    &&& g.requires.bins@ == spec_gating_list_or_empty(
        manifest_gating_list_of(content, top, "bins"@),
    )
    &&& g.requires.any_bins@ == spec_gating_list_or_empty(
        manifest_gating_list_of(content, top, "anyBins"@),
    )
    &&& g.requires.env@ == spec_gating_list_or_empty(manifest_gating_list_of(content, top, "env"@))
    &&& g.requires.config@ == spec_gating_list_or_empty(
        manifest_gating_list_of(content, top, "config"@),
    )
}

/// Whether one gating location is well-formed: its core parses and its
/// platform tag and identifiers, when present, do too.
pub open spec fn spec_gating_location_ok(content: Seq<char>, top: bool) -> bool {
    manifest_gating_of(content, top) matches Some(cc) && match cc {
        None => true,
        Some(core) => spec_os_field(core.os) is Some && manifest_gating_ids_of(content, top)
            is Some,
    }
}

/// Whether the manifest's gating metadata is well-formed: the effective
/// location — the top-level one when present, else the one inside the
/// skill table — parses, and its platform tag, if any, is recognized.
pub open spec fn spec_toml_gating_ok(content: Seq<char>) -> bool {
    match manifest_gating_of(content, true) {
        None => false,
        Some(Some(_)) => spec_gating_location_ok(content, true),
        Some(None) => spec_gating_location_ok(content, false),
    }
}

/// Whether the manifest declares no gating metadata at either location.
pub open spec fn spec_toml_gating_absent(content: Seq<char>) -> bool {
    &&& manifest_gating_of(content, true) matches Some(None)
    &&& manifest_gating_of(content, false) matches Some(None)
}

/// Whether `g` is the manifest's effective gating metadata.
pub open spec fn toml_gating_matches(content: Seq<char>, g: SkillGating) -> bool {
    if manifest_gating_of(content, true) matches Some(Some(_)) {
        gating_matches_at(content, true, g)
    } else {
        gating_matches_at(content, false, g)
    }
}

/// Whether the manifest text yields a skill: every facet parses and the
/// platform tag, when present, is recognized.
pub open spec fn spec_toml_yields(content: Seq<char>) -> bool {
    &&& manifest_meta_of(content) is Some
    &&& manifest_tags_of(content) is Some
    &&& spec_tools_yield(content)
    &&& manifest_prompts_of(content) is Some
    &&& spec_toml_gating_ok(content)
}

/// How a skill built from a structured manifest relates to the manifest
/// text, the manifest's path and the evaluation snapshot.
pub open spec fn skill_matches_toml(
    s: Skill,
    path: Seq<char>,
    content: Seq<char>,
    ctx: EligibilityContext,
) -> bool {
    &&& manifest_meta_of(content) matches Some(meta) && {
        &&& s.name == meta.name
        &&& s.description == meta.description
        &&& match meta.version {
            Some(v) => s.version == v,
            None => s.version@ == "0.1.0"@,
        }
        &&& s.author == meta.author
        &&& if spec_toml_gating_absent(content) {
            &&& s.eligible
            &&& s.ineligible_reasons@.len() == 0
            &&& s.skill_key == meta.name
            &&& s.primary_env is None
            &&& s.requires_env@.len() == 0
        } else {
            exists|g: SkillGating|
                {
                    &&& #[trigger] toml_gating_matches(content, g)
                    &&& views_of(s.ineligible_reasons@) == spec_eligibility_reasons(g, ctx)
                    &&& s.eligible == (spec_eligibility_reasons(g, ctx).len() == 0)
                    &&& match g.skill_key {
                        Some(k) => s.skill_key == k,
                        None => s.skill_key == meta.name,
                    }
                    &&& s.primary_env == g.primary_env
                    &&& s.requires_env@ == g.requires.env@
                }
        }
    }
    &&& Some(s.tags) == manifest_tags_of(content)
    &&& tools_match(content, s.tools@)
    &&& Some(s.prompts) == manifest_prompts_of(content)
    &&& s.location matches Some(l) && l@ == path
}

/// Clones a vector of strings element by element.
fn clone_string_vec(v: &Vec<String>) -> (r: Vec<String>)
    ensures
        r@ == v@,
{
    let n: usize = v.len();
    let mut r: Vec<String> = Vec::new();
    let mut i: usize = 0;
    while i < n
        invariant
            n == v@.len(),
            i <= n,
            r@ =~= v@.take(i as int),
        decreases n - i,
    {
        r.push(v[i].clone());
        proof {
            assert(r@ =~= v@.take(i as int + 1));
        }
        i = i + 1;
    }
    proof {
        assert(v@.take(n as int) =~= v@);
    }
    r
}

/// Resolves the effective gating metadata of the manifest text.
fn load_toml_gating(content: &str) -> (r: Option<Option<SkillGating>>)
    ensures
        match r {
            None => !spec_toml_gating_ok(content@),
            Some(None) => spec_toml_gating_ok(content@) && spec_toml_gating_absent(content@),
            Some(Some(g)) => spec_toml_gating_ok(content@) && !spec_toml_gating_absent(content@)
                && toml_gating_matches(content@, g),
        },
{
    match manifest_gating(content, true) {
        None => None,
        Some(Some(core)) => match load_gating_with_lists(content, true, core) {
            Some(g) => Some(Some(g)),
            None => None,
        },
        Some(None) => match manifest_gating(content, false) {
            None => None,
            Some(None) => Some(None),
            Some(Some(core)) => match load_gating_with_lists(content, false, core) {
                Some(g) => Some(Some(g)),
                None => None,
            },
        },
    }
}

/// Builds the gating value at one location from its scalar core, its
/// identifiers and its requirement lists.
fn load_gating_with_lists(content: &str, top: bool, core: GatingCore) -> (r: Option<SkillGating>)
    requires
        manifest_gating_of(content@, top) matches Some(cc) && cc matches Some(c) && c == core,
    ensures
        match r {
            Some(g) => spec_gating_location_ok(content@, top) && gating_matches_at(
                content@,
                top,
                g,
            ),
            None => !spec_gating_location_ok(content@, top),
        },
{
    let os: Option<SkillOs> = match &core.os {
        None => None,
        Some(s) => match parse_os(s.as_str()) {
            Some(tag) => Some(tag),
            None => {
                return None;
            },
        },
    };
    let (skill_key, primary_env) = match manifest_gating_ids(content, top) {
        Some(ids) => ids,
        None => {
            return None;
        },
    };
    let bins = gating_list_or_empty(manifest_gating_list(content, top, "bins"));
    let any_bins = gating_list_or_empty(manifest_gating_list(content, top, "anyBins"));
    let env = gating_list_or_empty(manifest_gating_list(content, top, "env"));
    let config = gating_list_or_empty(manifest_gating_list(content, top, "config"));
    let g = SkillGating {
        always: core.always,
        os,
        skill_key,
        primary_env,
        requires: SkillRequires { bins, any_bins, env, config },
    };
    Some(g)
}

fn gating_list_or_empty(r: Option<Vec<String>>) -> (out: Vec<String>)
    ensures
        out@ == spec_gating_list_or_empty(r),
{
    match r {
        Some(v) => v,
        None => Vec::new(),
    }
}

/// Loads a skill from a structured manifest's text: the metadata with
/// its defaults, the declared tools and prompts, the gating metadata
/// evaluated against the snapshot, and the configuration identifiers.
/// A malformed manifest yields nothing.
pub fn load_skill_toml(path: &str, content: &str, ctx: &EligibilityContext) -> (r: Option<Skill>)
    ensures
        match r {
            Some(s) => spec_toml_yields(content@) && skill_matches_toml(s, path@, content@, *ctx),
            None => !spec_toml_yields(content@),
        },
{
    let meta = match manifest_meta(content) {
        Some(m) => m,
        None => {
            return None;
        },
    };
    let tags = match manifest_tags(content) {
        Some(t) => t,
        None => {
            return None;
        },
    };
    let tools = match load_manifest_tools(content) {
        Some(t) => t,
        None => {
            return None;
        },
    };
    let prompts = match manifest_prompts(content) {
        Some(p) => p,
        None => {
            return None;
        },
    };
    let gating = match load_toml_gating(content) {
        Some(g) => g,
        None => {
            return None;
        },
    };
    let (eligible, ineligible_reasons) = evaluate_skill_eligibility(gating.as_ref(), ctx);
    let (skill_key, primary_env, requires_env): (String, Option<String>, Vec<String>) = match
        &gating {
        None => (meta.name.clone(), None, Vec::new()),
        Some(g) => (
            match &g.skill_key {
                Some(k) => k.clone(),
                None => meta.name.clone(),
            },
            match &g.primary_env {
                Some(p) => Some(p.clone()),
                None => None,
            },
            clone_string_vec(&g.requires.env),
        ),
    };
    let version = match meta.version {
        Some(v) => v,
        None => "0.1.0".to_owned(),
    };
    let ghost gating_witness = gating;
    let s = Skill {
        name: meta.name,
        description: meta.description,
        version,
        author: meta.author,
        tags,
        tools,
        prompts,
        eligible,
        ineligible_reasons,
        location: Some(path.to_owned()),
        skill_key,
        primary_env,
        requires_env,
    };
    proof {
        if let Some(g) = gating_witness {
            assert(toml_gating_matches(content@, g) && views_of(s.ineligible_reasons@)
                == spec_eligibility_reasons(g, *ctx) && s.eligible == (spec_eligibility_reasons(
                g,
                *ctx,
            ).len() == 0) && (match g.skill_key {
                Some(k) => s.skill_key == k,
                None => manifest_meta_of(content@) matches Some(m) && s.skill_key == m.name,
            }) && s.primary_env == g.primary_env && s.requires_env@ == g.requires.env@);
        }
    }
    Some(s)
}

} // verus!
