//! Prompt projection: renders the loaded skills as ordered text blocks
//! for the agent's system prompt — one block per skill with its name,
//! version and description, an enumerated tool list when tools are
//! declared, and every prompt fragment verbatim.  An empty skill list
//! renders to the empty string.

use vstd::prelude::*;
use crate::skill::{Skill, SkillTool};

verus! {

/// One tool's line in a skill's block.
pub open spec fn tool_line(t: SkillTool) -> Seq<char> {
    "- **"@ + t.name@ + "**: "@ + t.description@ + " ("@ + t.kind@ + ")\n"@
}

pub open spec fn tool_lines(ts: Seq<SkillTool>) -> Seq<char>
    decreases ts.len(),
{
    if ts.len() == 0 {
        Seq::empty()
    } else {
        tool_line(ts[0]) + tool_lines(ts.drop_first())
    }
}

/// The tool section of a skill's block: absent when no tools are
/// declared.
pub open spec fn tools_block(ts: Seq<SkillTool>) -> Seq<char> {
    if ts.len() == 0 {
        Seq::empty()
    } else {
        "Tools:\n"@ + tool_lines(ts)
    }
}

pub open spec fn prompt_lines(ps: Seq<String>) -> Seq<char>
    decreases ps.len(),
{
    if ps.len() == 0 {
        Seq::empty()
    } else {
        ps[0]@ + "\n"@ + prompt_lines(ps.drop_first())
    }
}

/// One skill's block: heading with name and version, description, the
/// tool section, every prompt fragment, and a blank separator line.
pub open spec fn skill_block(s: Skill) -> Seq<char> {
    "### "@ + s.name@ + " (v"@ + s.version@ + ")\n"@ + s.description@ + "\n"@ + tools_block(
        s.tools@,
    ) + prompt_lines(s.prompts@) + "\n"@
}

pub open spec fn skill_blocks(ss: Seq<Skill>) -> Seq<char>
    decreases ss.len(),
{
    if ss.len() == 0 {
        Seq::empty()
    } else {
        skill_block(ss[0]) + skill_blocks(ss.drop_first())
    }
}

/// The whole prompt addition: empty for no skills, else a heading
/// followed by every skill's block.
pub open spec fn spec_skills_prompt(ss: Seq<Skill>) -> Seq<char> {
    if ss.len() == 0 {
        Seq::empty()
    } else {
        "\n## Active Skills\n\n"@ + skill_blocks(ss)
    }
}

proof fn lemma_tool_lines_push(ts: Seq<SkillTool>, t: SkillTool)
    ensures
        tool_lines(ts.push(t)) == tool_lines(ts) + tool_line(t),
    decreases ts.len(),
{
    if ts.len() == 0 {
        assert(ts.push(t)[0] == t);
        assert(ts.push(t).drop_first() =~= Seq::<SkillTool>::empty());
        assert(tool_lines(Seq::<SkillTool>::empty()) == Seq::<char>::empty());
        assert(tool_line(t) + Seq::<char>::empty() =~= tool_line(t));
        assert(tool_lines(ts) + tool_line(t) =~= tool_line(t));
    } else {
        assert(ts.push(t)[0] == ts[0]);
        assert(ts.push(t).drop_first() =~= ts.drop_first().push(t));
        lemma_tool_lines_push(ts.drop_first(), t);
        assert(tool_line(ts[0]) + (tool_lines(ts.drop_first()) + tool_line(t)) =~= (tool_line(
            ts[0],
        ) + tool_lines(ts.drop_first())) + tool_line(t));
    }
}

proof fn lemma_prompt_lines_push(ps: Seq<String>, p: String)
    ensures
        prompt_lines(ps.push(p)) == prompt_lines(ps) + (p@ + "\n"@),
    decreases ps.len(),
{
    if ps.len() == 0 {
        assert(ps.push(p)[0] == p);
        assert(ps.push(p).drop_first() =~= Seq::<String>::empty());
        assert(prompt_lines(Seq::<String>::empty()) == Seq::<char>::empty());
        assert((p@ + "\n"@) + Seq::<char>::empty() =~= p@ + "\n"@);
        assert(prompt_lines(ps) + (p@ + "\n"@) =~= p@ + "\n"@);
    } else {
        assert(ps.push(p)[0] == ps[0]);
        assert(ps.push(p).drop_first() =~= ps.drop_first().push(p));
        lemma_prompt_lines_push(ps.drop_first(), p);
        assert(ps[0]@ + "\n"@ + (prompt_lines(ps.drop_first()) + (p@ + "\n"@)) =~= (ps[0]@ + "\n"@
            + prompt_lines(ps.drop_first())) + (p@ + "\n"@));
    }
}

proof fn lemma_skill_blocks_push(ss: Seq<Skill>, s: Skill)
    ensures
        skill_blocks(ss.push(s)) == skill_blocks(ss) + skill_block(s),
    decreases ss.len(),
{
    if ss.len() == 0 {
        assert(ss.push(s)[0] == s);
        assert(ss.push(s).drop_first() =~= Seq::<Skill>::empty());
        assert(skill_blocks(Seq::<Skill>::empty()) == Seq::<char>::empty());
        assert(skill_block(s) + Seq::<char>::empty() =~= skill_block(s));
        assert(skill_blocks(ss) + skill_block(s) =~= skill_block(s));
    } else {
        assert(ss.push(s)[0] == ss[0]);
        assert(ss.push(s).drop_first() =~= ss.drop_first().push(s));
        lemma_skill_blocks_push(ss.drop_first(), s);
        assert(skill_block(ss[0]) + (skill_blocks(ss.drop_first()) + skill_block(s)) =~= (
        skill_block(ss[0]) + skill_blocks(ss.drop_first())) + skill_block(s));
    }
}

/// Renders one skill's block onto the accumulator.
fn append_skill_block(out: &mut String, s: &Skill)
    ensures
        final(out)@ == old(out)@ + skill_block(*s),
{
    let ghost start = old(out)@;
    out.append("### ");
    out.append(s.name.as_str());
    out.append(" (v");
    out.append(s.version.as_str());
    out.append(")\n");
    out.append(s.description.as_str());
    out.append("\n");
    let ghost head = start + "### "@ + s.name@ + " (v"@ + s.version@ + ")\n"@ + s.description@
        + "\n"@;
    proof {
        assert(out@ == head);
    }
    if s.tools.len() > 0 {
        out.append("Tools:\n");
        let tn: usize = s.tools.len();
        let mut i: usize = 0;
        proof {
            assert(s.tools@.take(0) =~= Seq::<SkillTool>::empty());
            assert(out@ + tool_lines(s.tools@.take(0)) =~= out@);
        }
        while i < tn
            invariant
                tn == s.tools@.len(),
                i <= tn,
                out@ == head + "Tools:\n"@ + tool_lines(s.tools@.take(i as int)),
            decreases tn - i,
        {
            let ghost before = out@;
            let t = &s.tools[i];
            out.append("- **");
            out.append(t.name.as_str());
            out.append("**: ");
            out.append(t.description.as_str());
            out.append(" (");
            out.append(t.kind.as_str());
            out.append(")\n");
            proof {
                assert(out@ =~= before + tool_line(s.tools@[i as int]));
                assert(s.tools@.take(i as int + 1) =~= s.tools@.take(i as int).push(
                    s.tools@[i as int],
                ));
                lemma_tool_lines_push(s.tools@.take(i as int), s.tools@[i as int]);
                assert(out@ =~= head + "Tools:\n"@ + tool_lines(s.tools@.take(i as int + 1)));
            }
            i = i + 1;
        }
        proof {
            assert(s.tools@.take(tn as int) =~= s.tools@);
            assert(head + "Tools:\n"@ + tool_lines(s.tools@) =~= head + tools_block(s.tools@));
        }
    } else {
        proof {
            assert(tools_block(s.tools@) =~= Seq::<char>::empty());
            assert(head + tools_block(s.tools@) =~= head);
        }
    }
    let ghost with_tools = head + tools_block(s.tools@);
    proof {
        assert(out@ == with_tools);
    }
    let pn: usize = s.prompts.len();
    let mut j: usize = 0;
    proof {
        assert(s.prompts@.take(0) =~= Seq::<String>::empty());
        assert(out@ + prompt_lines(s.prompts@.take(0)) =~= out@);
    }
    while j < pn
        invariant
            pn == s.prompts@.len(),
            j <= pn,
            out@ == with_tools + prompt_lines(s.prompts@.take(j as int)),
        decreases pn - j,
    {
        let ghost before = out@;
        out.append(s.prompts[j].as_str());
        out.append("\n");
        proof {
            assert(out@ =~= before + (s.prompts@[j as int]@ + "\n"@));
            assert(s.prompts@.take(j as int + 1) =~= s.prompts@.take(j as int).push(
                s.prompts@[j as int],
            ));
            lemma_prompt_lines_push(s.prompts@.take(j as int), s.prompts@[j as int]);
            assert(out@ =~= with_tools + prompt_lines(s.prompts@.take(j as int + 1)));
        }
        j = j + 1;
    }
    proof {
        assert(s.prompts@.take(pn as int) =~= s.prompts@);
    }
    out.append("\n");
    proof {
        assert(out@ =~= start + skill_block(*s));
    }
}

/// Builds the system-prompt addition for the loaded skills.
pub fn skills_to_prompt(skills: &Vec<Skill>) -> (r: String)
    ensures
        r@ == spec_skills_prompt(skills@),
{
    if skills.len() == 0 {
        let r = String::new();
        proof {
            assert(r@ =~= spec_skills_prompt(skills@));
        }
        return r;
    }
    let mut out = "\n## Active Skills\n\n".to_owned();
    let ghost header = out@;
    let n: usize = skills.len();
    let mut i: usize = 0;
    proof {
        assert(skills@.take(0) =~= Seq::<Skill>::empty());
        assert(out@ + skill_blocks(skills@.take(0)) =~= out@);
    }
    while i < n
        invariant
            n == skills@.len(),
            i <= n,
            out@ == header + skill_blocks(skills@.take(i as int)),
        decreases n - i,
    {
        append_skill_block(&mut out, &skills[i]);
        proof {
            assert(skills@.take(i as int + 1) =~= skills@.take(i as int).push(skills@[i as int]));
            lemma_skill_blocks_push(skills@.take(i as int), skills@[i as int]);
            assert(out@ =~= header + skill_blocks(skills@.take(i as int + 1)));
        }
        i = i + 1;
    }
    proof {
        assert(skills@.take(n as int) =~= skills@);
        assert(out@ =~= spec_skills_prompt(skills@));
    }
    out
}

} // verus!
