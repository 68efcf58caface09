//! The skill data model and the simple manifest format: a skill is a
//! declarative capability bundle; the simple format derives it from a
//! markdown document whose first meaningful line is the description and
//! whose whole content becomes one prompt fragment.

use vstd::prelude::*;
use std::collections::HashMap;
use crate::text::{spec_trim, spec_lines, split_lines, trim_str, views_of};

verus! {

/// A tool declared by a skill: a shell command, HTTP call or script.
/// Declarative only; nothing here executes it.
#[derive(Debug, Clone)]
pub struct SkillTool {
    pub name: String,
    pub description: String,
    /// "shell", "http", "script"
    pub kind: String,
    /// The command, URL or script text.
    pub command: String,
    pub args: HashMap<String, String>,
}

/// A discovered skill: metadata, declared tools and prompt fragments,
/// the eligibility verdict, and the identifiers that join it to user
/// configuration.
#[derive(Debug, Clone)]
pub struct Skill {
    pub name: String,
    pub description: String,
    pub version: String,
    pub author: Option<String>,
    pub tags: Vec<String>,
    pub tools: Vec<SkillTool>,
    pub prompts: Vec<String>,
    pub eligible: bool,
    pub ineligible_reasons: Vec<String>,
    /// Where the skill's manifest was found.
    pub location: Option<String>,
    /// The identifier that joins the skill to user configuration; it may
    /// differ from the display name.
    pub skill_key: String,
    /// The variable a configured API key is injected under.
    pub primary_env: Option<String>,
    /// Environment variables the skill requires at run time.
    pub requires_env: Vec<String>,
}

/// A line that can serve as a description: not a heading, not blank.
pub open spec fn line_meaningful(l: Seq<char>) -> bool {
    !(l.len() > 0 && l[0] == '#') && spec_trim(l).len() > 0
}

pub open spec fn spec_first_meaningful(ls: Seq<Seq<char>>) -> Option<Seq<char>>
    decreases ls.len(),
{
    if ls.len() == 0 {
        None
    } else if line_meaningful(ls[0]) {
        Some(ls[0])
    } else {
        spec_first_meaningful(ls.drop_first())
    }
}

/// The description a document yields: its first line that is neither a
/// heading nor blank, trimmed, or the fixed placeholder.
pub open spec fn spec_description(content: Seq<char>) -> Seq<char> {
    match spec_first_meaningful(spec_lines(content)) {
        Some(l) => spec_trim(l),
        None => "No description"@,
    }
}

/// Extracts a document's description by the first-meaningful-line rule.
pub fn extract_description(content: &str) -> (r: String)
    ensures
        r@ == spec_description(content@),
{
    let lines = split_lines(content);
    let n: usize = lines.len();
    let mut i: usize = 0;
    proof {
        assert(views_of(lines@).skip(0) =~= views_of(lines@));
    }
    while i < n
        invariant
            n == lines@.len(),
            i <= n,
            views_of(lines@) == spec_lines(content@),
            spec_first_meaningful(spec_lines(content@)) == spec_first_meaningful(
                views_of(lines@).skip(i as int),
            ),
        decreases n - i,
    {
        let l = &lines[i];
        let starts_hash = l.as_str().unicode_len() > 0 && l.as_str().get_char(0) == '#';
        let t = trim_str(l.as_str());
        proof {
            assert(views_of(lines@).skip(i as int)[0] == lines@[i as int]@);
            assert(views_of(lines@).skip(i as int).drop_first() =~= views_of(lines@).skip(
                i as int + 1,
            ));
        }
        if !starts_hash && t.as_str().unicode_len() > 0 {
            return t;
        }
        i = i + 1;
    }
    proof {
        assert(views_of(lines@).skip(n as int) =~= Seq::<Seq<char>>::empty());
    }
    "No description".to_owned()
}

/// A document none of whose lines is meaningful — headings and blank
/// lines only — yields exactly the placeholder description.
pub proof fn lemma_no_meaningful_line(content: Seq<char>)
    requires
        forall|i: int|
            0 <= i < spec_lines(content).len() ==> !line_meaningful(spec_lines(content)[i]),
    ensures
        spec_description(content) == "No description"@,
{
    lemma_first_meaningful_none(spec_lines(content));
}

proof fn lemma_first_meaningful_none(ls: Seq<Seq<char>>)
    requires
        forall|i: int| 0 <= i < ls.len() ==> !line_meaningful(ls[i]),
    ensures
        spec_first_meaningful(ls) is None,
    decreases ls.len(),
{
    if ls.len() > 0 {
        assert(!line_meaningful(ls[0]));
        assert(forall|i: int|
            0 <= i < ls.drop_first().len() ==> ls.drop_first()[i] == ls[i + 1]
                && !line_meaningful(ls.drop_first()[i]));
        lemma_first_meaningful_none(ls.drop_first());
    }
}

/// The fields every skill built from the simple markdown format shares.
pub open spec fn skill_matches_md(
    s: Skill,
    path: Seq<char>,
    name: Seq<char>,
    content: Seq<char>,
) -> bool {
    &&& s.name@ == name
    &&& s.skill_key@ == name
    &&& s.description@ == spec_description(content)
    &&& s.version@ == "0.1.0"@
    &&& s.author is None
    &&& s.tags@.len() == 0
    &&& s.tools@.len() == 0
    &&& views_of(s.prompts@) == seq![content]
    &&& s.eligible
    &&& s.ineligible_reasons@.len() == 0
    &&& s.location matches Some(l) && l@ == path
    &&& s.primary_env is None
    &&& s.requires_env@.len() == 0
}

/// Builds a skill from a simple markdown manifest: the name comes from
/// the containing directory, the description from the first meaningful
/// line, and the whole document becomes the single prompt fragment.
pub fn load_skill_md(path: &str, dir_name: &str, content: &str) -> (s: Skill)
    ensures
        skill_matches_md(s, path@, dir_name@, content@),
{
    let s = Skill {
        name: dir_name.to_owned(),
        description: extract_description(content),
        version: "0.1.0".to_owned(),
        author: None,
        tags: Vec::new(),
        tools: Vec::new(),
        prompts: vec![content.to_owned()],
        eligible: true,
        ineligible_reasons: Vec::new(),
        location: Some(path.to_owned()),
        skill_key: dir_name.to_owned(),
        primary_env: None,
        requires_env: Vec::new(),
    };
    proof {
        assert(views_of(s.prompts@) =~= seq![content@]);
    }
    s
}

/// The fields every skill built from a synchronized community document
/// shares: name from the file stem, fixed authorship and tag metadata
/// identifying it as externally sourced.
pub open spec fn skill_matches_open_md(
    s: Skill,
    path: Seq<char>,
    stem: Seq<char>,
    content: Seq<char>,
) -> bool {
    &&& s.name@ == stem
    &&& s.skill_key@ == stem
    &&& s.description@ == spec_description(content)
    &&& s.version@ == "open-skills"@
    &&& s.author matches Some(a) && a@ == "besoeasy/open-skills"@
    &&& views_of(s.tags@) == seq!["open-skills"@]
    &&& s.tools@.len() == 0
    &&& views_of(s.prompts@) == seq![content]
    &&& s.eligible
    &&& s.ineligible_reasons@.len() == 0
    &&& s.location matches Some(l) && l@ == path
    &&& s.primary_env is None
    &&& s.requires_env@.len() == 0
}

/// Builds a skill from one markdown document of the synchronized
/// community repository.
pub fn load_open_skill_md(path: &str, stem: &str, content: &str) -> (s: Skill)
    ensures
        skill_matches_open_md(s, path@, stem@, content@),
{
    let s = Skill {
        name: stem.to_owned(),
        description: extract_description(content),
        version: "open-skills".to_owned(),
        author: Some("besoeasy/open-skills".to_owned()),
        tags: vec!["open-skills".to_owned()],
        tools: Vec::new(),
        prompts: vec![content.to_owned()],
        eligible: true,
        ineligible_reasons: Vec::new(),
        location: Some(path.to_owned()),
        skill_key: stem.to_owned(),
        primary_env: None,
        requires_env: Vec::new(),
    };
    proof {
        assert(views_of(s.prompts@) =~= seq![content@]);
        assert(views_of(s.tags@) =~= seq!["open-skills"@]);
    }
    s
}

} // verus!
