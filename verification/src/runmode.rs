//! Preparing a skill invocation: the lenient frontmatter that routes a
//! run to prompt-only or tool-dispatch mode, the `{baseDir}`
//! substitution of the prompt body, and the safety checks on
//! user-supplied skill names before any path is touched.

use vstd::prelude::*;
use crate::eligibility::{spec_join_path, join_path};
use crate::text::{spec_lines, spec_trim, split_lines, trim_str, str_eq, views_of};
use crate::frontmatter::{find_colon, lemma_find_colon_is};

verus! {

/// The command-routing frontmatter of a skill document: both keys
/// optional, the last occurrence of a key winning.
#[derive(Debug, Default, Clone, PartialEq, Eq)]
pub struct CommandFrontmatter {
    pub command_dispatch: Option<String>,
    pub command_tool: Option<String>,
}

/// How a skill run proceeds: its body as agent instructions, or a
/// dispatch to a named tool.
#[derive(Debug, Clone, PartialEq, Eq)]
pub enum SkillRunMode {
    PromptOnly { instructions: String },
    ToolDispatch { tool_name: String },
}

/// Why a skill invocation could not be prepared.
#[derive(Debug, Clone, Copy, PartialEq, Eq, Structural)]
pub enum RunModeError {
    MissingCommandTool,
}

impl RunModeError {
    pub fn message(&self) -> (r: &'static str)
        ensures
            r@ == self.spec_message(),
    {
        match self {
            RunModeError::MissingCommandTool => "Skill frontmatter requires non-empty `command-tool` when `command-dispatch: tool`",
        }
    }

    pub open spec fn spec_message(&self) -> Seq<char> {
        match self {
            RunModeError::MissingCommandTool => "Skill frontmatter requires non-empty `command-tool` when `command-dispatch: tool`"@,
        }
    }
}

/// Whether the document opens with a frontmatter block: three dashes
/// and a newline.
pub open spec fn has_fm_prefix(s: Seq<char>) -> bool {
    s.len() >= 4 && s[0] == '-' && s[1] == '-' && s[2] == '-' && s[3] == '\n'
}

/// Whether a frontmatter terminator — a newline, three dashes and a
/// newline — starts at `i`.
pub open spec fn fm_end_at(s: Seq<char>, i: int) -> bool {
    i + 5 <= s.len() && s[i] == '\n' && s[i + 1] == '-' && s[i + 2] == '-' && s[i + 3] == '-' && s[i
        + 4] == '\n'
}

/// The first frontmatter terminator at or after `i`.
pub open spec fn spec_find_fm_end(s: Seq<char>, i: int) -> Option<int>
    decreases s.len() - i,
{
    if i < 0 || i > s.len() {
        None
    } else if fm_end_at(s, i) {
        Some(i)
    } else if i == s.len() {
        None
    } else {
        spec_find_fm_end(s, i + 1)
    }
}

/// The number of leading characters equal to `c`.
pub open spec fn strip_start_len(s: Seq<char>, c: char) -> nat
    decreases s.len(),
{
    if s.len() > 0 && s[0] == c {
        (1 + strip_start_len(s.drop_first(), c)) as nat
    } else {
        0
    }
}

/// The number of trailing characters equal to `c`.
pub open spec fn strip_end_len(s: Seq<char>, c: char) -> nat
    decreases s.len(),
{
    if s.len() > 0 && s.last() == c {
        (1 + strip_end_len(s.drop_last(), c)) as nat
    } else {
        0
    }
}

/// The string with every leading and trailing `c` removed, as
/// `str::trim_matches` yields it.
pub open spec fn spec_strip_char(s: Seq<char>, c: char) -> Seq<char> {
    let a = strip_start_len(s, c) as int;
    let b = s.len() - strip_end_len(s, c);
    if a <= b {
        s.subrange(a, b)
    } else {
        Seq::empty()
    }
}

proof fn lemma_strip_start_len_is(s: Seq<char>, c: char, i: int)
    requires
        0 <= i <= s.len(),
        forall|j: int| 0 <= j < i ==> s[j] == c,
        i < s.len() ==> s[i] != c,
    ensures
        strip_start_len(s, c) == i,
    decreases s.len(),
{
    if s.len() > 0 && s[0] == c {
        assert(i >= 1);
        lemma_strip_start_len_is(s.drop_first(), c, i - 1);
    }
}

proof fn lemma_strip_end_len_is(s: Seq<char>, c: char, i: int)
    requires
        0 <= i <= s.len(),
        forall|j: int| i <= j < s.len() ==> s[j] == c,
        i > 0 ==> s[i - 1] != c,
    ensures
        strip_end_len(s, c) == s.len() - i,
    decreases s.len(),
{
    if s.len() > 0 && s.last() == c {
        assert(i < s.len());
        lemma_strip_end_len_is(s.drop_last(), c, i);
    }
}

/// Removes every leading and trailing occurrence of one character.
fn strip_char_ends(s: &str, c: char) -> (r: String)
    ensures
        r@ == spec_strip_char(s@, c),
{
    let n: usize = s.unicode_len();
    let mut a: usize = 0;
    while a < n && s.get_char(a) == c
        invariant
            n == s@.len(),
            a <= n,
            forall|j: int| 0 <= j < a ==> s@[j] == c,
        decreases n - a,
    {
        a = a + 1;
    }
    proof {
        lemma_strip_start_len_is(s@, c, a as int);
    }
    if a == n {
        let r = s.substring_char(n, n);
        proof {
            assert(strip_end_len(s@, c) <= s@.len()) by {
                lemma_strip_end_le(s@, c);
            }
            assert(r@ =~= spec_strip_char(s@, c));
        }
        return r.to_owned();
    }
    let mut b: usize = n;
    while b > a && s.get_char(b - 1) == c
        invariant
            n == s@.len(),
            a <= b <= n,
            forall|j: int| b <= j < n ==> s@[j] == c,
        decreases b,
    {
        b = b - 1;
    }
    proof {
        assert(s@[a as int] != c);
        assert(b > a);
        lemma_strip_end_len_is(s@, c, b as int);
    }
    let r = s.substring_char(a, b);
    proof {
        assert(r@ =~= spec_strip_char(s@, c));
    }
    r.to_owned()
}

proof fn lemma_strip_end_le(s: Seq<char>, c: char)
    ensures
        strip_end_len(s, c) <= s.len(),
    decreases s.len(),
{
    if s.len() > 0 && s.last() == c {
        lemma_strip_end_le(s.drop_last(), c);
    }
}

/// The value of a routing key: trimmed, then double quotes stripped,
/// then single quotes stripped.
pub open spec fn spec_fm_value(raw: Seq<char>) -> Seq<char> {
    spec_strip_char(spec_strip_char(spec_trim(raw), '"'), '\'')
}

/// One line applied to the routing state: a `command-dispatch` or
/// `command-tool` key updates its slot, anything else is ignored.
pub open spec fn spec_cmd_line(
    st: (Option<Seq<char>>, Option<Seq<char>>),
    l: Seq<char>,
) -> (Option<Seq<char>>, Option<Seq<char>>) {
    if find_colon(l) >= l.len() {
        st
    } else {
        let key = spec_trim(l.take(find_colon(l) as int));
        let value = spec_fm_value(l.skip(find_colon(l) as int + 1));
        if key == "command-dispatch"@ {
            (Some(value), st.1)
        } else if key == "command-tool"@ {
            (st.0, Some(value))
        } else {
            st
        }
    }
}

/// The routing keys collected over the frontmatter lines, later
/// occurrences overwriting earlier ones.
pub open spec fn spec_cmd_fold(ls: Seq<Seq<char>>) -> (Option<Seq<char>>, Option<Seq<char>>)
    decreases ls.len(),
{
    if ls.len() == 0 {
        (None, None)
    } else {
        spec_cmd_line(spec_cmd_fold(ls.drop_last()), ls.last())
    }
}

/// What the lenient frontmatter parse yields: the routing state and
/// the body.  A document without a well-formed block keeps its whole
/// text as the body with empty routing state.
pub open spec fn spec_parse_command_frontmatter(content: Seq<char>) -> (
    (Option<Seq<char>>, Option<Seq<char>>),
    Seq<char>,
) {
    if !has_fm_prefix(content) {
        ((None, None), content)
    } else {
        let stripped = content.skip(4);
        match spec_find_fm_end(stripped, 0) {
            None => ((None, None), content),
            Some(end) => (
                spec_cmd_fold(spec_lines(stripped.take(end))),
                stripped.skip(end + 5),
            ),
        }
    }
}

/// Parses the lenient routing frontmatter and splits off the body.
pub fn parse_skill_frontmatter_and_body(content: &str) -> (r: (CommandFrontmatter, String))
    ensures
        ({
            let spec = spec_parse_command_frontmatter(content@);
            &&& (match r.0.command_dispatch {
                Some(v) => spec.0.0 == Some(v@),
                None => spec.0.0 is None,
            })
            &&& (match r.0.command_tool {
                Some(v) => spec.0.1 == Some(v@),
                None => spec.0.1 is None,
            })
            &&& r.1@ == spec.1
        }),
{
    let n: usize = content.unicode_len();
    let has_prefix = n >= 4 && content.get_char(0) == '-' && content.get_char(1) == '-'
        && content.get_char(2) == '-' && content.get_char(3) == '\n';
    if !has_prefix {
        return (CommandFrontmatter { command_dispatch: None, command_tool: None }, content.to_owned());
    }
    let stripped = content.substring_char(4, n);
    let ghost sv = content@.skip(4);
    proof {
        assert(stripped@ =~= sv);
    }
    let sn: usize = stripped.unicode_len();
    // look for the terminator
    let mut i: usize = 0;
    let mut found = false;
    while i < sn && !found
        invariant
            sn == sv.len(),
            stripped@ == sv,
            i <= sn,
            found ==> fm_end_at(sv, i as int),
            found ==> spec_find_fm_end(sv, 0) == Some(i as int),
            !found ==> spec_find_fm_end(sv, 0) == spec_find_fm_end(sv, i as int),
        decreases sn - i + (if found {
            0int
        } else {
            1int
        }),
    {
        let is_end = sn - i >= 5 && stripped.get_char(i) == '\n' && stripped.get_char(i + 1) == '-'
            && stripped.get_char(i + 2) == '-' && stripped.get_char(i + 3) == '-' && stripped
            .get_char(i + 4) == '\n';
        if is_end {
            proof {
                assert(fm_end_at(sv, i as int));
                assert(spec_find_fm_end(sv, i as int) == Some(i as int));
            }
            found = true;
        } else {
            proof {
                assert(!fm_end_at(sv, i as int));
            }
            i = i + 1;
        }
    }
    if !found {
        proof {
            if i == sn {
                assert(!fm_end_at(sv, sn as int));
                assert(spec_find_fm_end(sv, sn as int) is None);
            }
        }
        return (CommandFrontmatter { command_dispatch: None, command_tool: None }, content.to_owned());
    }
    let fm_raw = stripped.substring_char(0, i);
    let body = stripped.substring_char(i + 5, sn).to_owned();
    proof {
        assert(fm_raw@ =~= sv.take(i as int));
        assert(body@ =~= sv.skip(i as int + 5));
    }
    let lines = split_lines(fm_raw);
    let ghost ls = spec_lines(sv.take(i as int));
    proof {
        assert(views_of(lines@) == ls);
    }
    let ln: usize = lines.len();
    let mut dispatch: Option<String> = None;
    let mut tool: Option<String> = None;
    let mut k: usize = 0;
    proof {
        assert(ls.take(0) =~= Seq::<Seq<char>>::empty());
    }
    while k < ln
        invariant
            ln == lines@.len(),
            views_of(lines@) == ls,
            k <= ln,
            spec_cmd_fold(ls.take(k as int)) == ((
                match &dispatch {
                    Some(v) => Some(v@),
                    None => None,
                },
                match &tool {
                    Some(v) => Some(v@),
                    None => None,
                },
            )),
        decreases ln - k,
    {
        let ghost st = (
            match &dispatch {
                Some(v) => Some(v@),
                None => None,
            },
            match &tool {
                Some(v) => Some(v@),
                None => None,
            },
        );
        let l = &lines[k];
        let lv: usize = l.as_str().unicode_len();
        let mut ci: usize = 0;
        while ci < lv && l.as_str().get_char(ci) != ':'
            invariant
                lv == l@.len(),
                ci <= lv,
                forall|j: int| 0 <= j < ci ==> l@[j] != ':',
            decreases lv - ci,
        {
            ci = ci + 1;
        }
        proof {
            lemma_find_colon_is(l@, ci as int);
        }
        if ci < lv {
            let key = trim_str(l.as_str().substring_char(0, ci));
            let raw_value = l.as_str().substring_char(ci + 1, lv);
            let value = strip_char_ends(
                strip_char_ends(trim_str(raw_value).as_str(), '"').as_str(),
                '\'',
            );
            proof {
                assert(l@.subrange(0, ci as int) =~= l@.take(ci as int));
                assert(l@.subrange(ci as int + 1, lv as int) =~= l@.skip(ci as int + 1));
            }
            if str_eq(key.as_str(), "command-dispatch") {
                dispatch = Some(value);
            } else if str_eq(key.as_str(), "command-tool") {
                tool = Some(value);
            }
        }
        proof {
            assert(ls.take(k as int + 1).drop_last() =~= ls.take(k as int));
            assert(ls.take(k as int + 1).last() == ls[k as int]);
            assert(ls[k as int] == lines@[k as int]@);
        }
        k = k + 1;
    }
    proof {
        assert(ls.take(ln as int) =~= ls);
    }
    (CommandFrontmatter { command_dispatch: dispatch, command_tool: tool }, body)
}

/// Whether the pattern occurs at position `i`.
pub open spec fn pat_at(s: Seq<char>, pat: Seq<char>, i: int) -> bool {
    i + pat.len() <= s.len() && s.subrange(i, i + pat.len()) == pat
}

/// The first occurrence of the pattern at or after `i`.
pub open spec fn spec_find_pat(s: Seq<char>, pat: Seq<char>, i: int) -> Option<int>
    decreases s.len() - i,
{
    if i < 0 || i > s.len() {
        None
    } else if pat_at(s, pat, i) {
        Some(i)
    } else if i == s.len() {
        None
    } else {
        spec_find_pat(s, pat, i + 1)
    }
}

/// The text with every occurrence of the pattern replaced, left to
/// right without overlap, as `str::replace` yields it.
pub open spec fn spec_replace(s: Seq<char>, pat: Seq<char>, rep: Seq<char>) -> Seq<char>
    decreases s.len(),
    via spec_replace_decreases
{
    if pat.len() == 0 {
        s
    } else {
        match spec_find_pat(s, pat, 0) {
            None => s,
            Some(m) => s.take(m) + rep + spec_replace(s.skip(m + pat.len()), pat, rep),
        }
    }
}

#[via_fn]
proof fn spec_replace_decreases(s: Seq<char>, pat: Seq<char>, rep: Seq<char>) {
    if pat.len() != 0 {
        lemma_find_pat_le(s, pat, 0);
    }
}

proof fn lemma_find_pat_le(s: Seq<char>, pat: Seq<char>, i: int)
    ensures
        spec_find_pat(s, pat, i) matches Some(m) ==> i <= m && m + pat.len() <= s.len(),
    decreases s.len() - i,
{
    if 0 <= i <= s.len() && !pat_at(s, pat, i) && i < s.len() {
        lemma_find_pat_le(s, pat, i + 1);
    }
}

/// Replaces every occurrence of a pattern, as `str::replace` does.
pub fn replace_all(s: &str, pat: &str, rep: &str) -> (r: String)
    ensures
        r@ == spec_replace(s@, pat@, rep@),
{
    let n: usize = s.unicode_len();
    let pn: usize = pat.unicode_len();
    if pn == 0 {
        return s.to_owned();
    }
    let mut out = String::new();
    let mut pos: usize = 0;
    proof {
        assert(s@.skip(0) =~= s@);
        assert(out@ + spec_replace(s@, pat@, rep@) =~= spec_replace(s@, pat@, rep@));
    }
    while pos < n
        invariant
            n == s@.len(),
            pn == pat@.len(),
            pn > 0,
            pos <= n,
            out@ + spec_replace(s@.skip(pos as int), pat@, rep@) == spec_replace(s@, pat@, rep@),
        decreases n - pos,
    {
        let ghost suffix = s@.skip(pos as int);
        // find the next occurrence at or after pos
        let mut m: usize = pos;
        let mut found = false;
        while m < n && !found
            invariant
                n == s@.len(),
                pn == pat@.len(),
                pn > 0,
                pos <= m <= n,
                suffix == s@.skip(pos as int),
                found ==> pat_at(suffix, pat@, m - pos),
                found ==> spec_find_pat(suffix, pat@, 0) == Some(m - pos),
                !found ==> spec_find_pat(suffix, pat@, 0) == spec_find_pat(
                    suffix,
                    pat@,
                    m - pos,
                ),
            decreases n - m + (if found {
                0int
            } else {
                1int
            }),
        {
            let mut eq = n - m >= pn;
            let mut t: usize = 0;
            if eq {
                while t < pn && eq
                    invariant
                        n == s@.len(),
                        pn == pat@.len(),
                        n - m >= pn,
                        m <= n,
                        t <= pn,
                        eq ==> forall|j: int| 0 <= j < t ==> s@[m + j] == pat@[j],
                        !eq ==> exists|j: int| 0 <= j < pn && s@[m + j] != pat@[j],
                    decreases pn - t + (if eq {
                        1int
                    } else {
                        0int
                    }),
                {
                    if s.get_char(m + t) != pat.get_char(t) {
                        eq = false;
                    } else {
                        t = t + 1;
                    }
                }
            }
            proof {
                assert(suffix.len() == n - pos);
                if eq {
                    assert(t == pn);
                    assert(m + pn <= n);
                    assert forall|j: int| 0 <= j < pn implies suffix.subrange(
                        m - pos,
                        m - pos + pn as int,
                    )[j] == pat@[j] by {
                        assert(suffix[m - pos + j] == s@[m + j]);
                    }
                    assert(suffix.subrange(m - pos, m - pos + pn as int) =~= pat@);
                    assert(pat_at(suffix, pat@, m - pos));
                } else {
                    if n - m >= pn {
                        let j = choose|j: int| 0 <= j < pn && s@[m + j] != pat@[j];
                        assert(suffix[m - pos + j] == s@[m + j]);
                        assert(!pat_at(suffix, pat@, m - pos));
                    } else {
                        assert(!pat_at(suffix, pat@, m - pos));
                    }
                }
            }
            if eq {
                proof {
                    assert(spec_find_pat(suffix, pat@, m - pos) == Some(m - pos));
                }
                found = true;
            } else {
                m = m + 1;
            }
        }
        if !found {
            // no more occurrences: copy the rest verbatim
            proof {
                assert(!pat_at(suffix, pat@, (n - pos) as int));
                assert(spec_find_pat(suffix, pat@, (n - pos) as int) is None);
                assert(spec_replace(suffix, pat@, rep@) == suffix);
            }
            out.append(s.substring_char(pos, n));
            proof {
                assert(s@.subrange(pos as int, n as int) =~= suffix);
                assert(out@ =~= spec_replace(s@, pat@, rep@));
            }
            return out;
        }
        proof {
            lemma_find_pat_le(suffix, pat@, 0);
        }
        out.append(s.substring_char(pos, m));
        out.append(rep);
        proof {
            assert(s@.subrange(pos as int, m as int) =~= suffix.take(m - pos));
            assert(spec_replace(suffix, pat@, rep@) == suffix.take(m - pos) + rep@ + spec_replace(
                suffix.skip(m - pos + pn as int),
                pat@,
                rep@,
            ));
            assert(suffix.skip(m - pos + pn as int) =~= s@.skip(m as int + pn as int));
        }
        pos = m + pn;
    }
    proof {
        assert(s@.skip(n as int).len() == 0);
        assert(spec_replace(s@.skip(n as int), pat@, rep@) == s@.skip(n as int));
        assert(out@ + s@.skip(n as int) =~= out@);
    }
    out
}

/// The prompt body with `{baseDir}` replaced by the skill's directory.
pub open spec fn spec_render_body(body: Seq<char>, dir: Seq<char>) -> Seq<char> {
    spec_replace(body, "{baseDir}"@, dir)
}

/// Substitutes the skill's directory into its prompt body.
pub fn render_skill_body(body: &str, skill_dir: &str) -> (r: String)
    ensures
        r@ == spec_render_body(body@, skill_dir@),
{
    replace_all(body, "{baseDir}", skill_dir)
}

/// The run mode a document's routing frontmatter selects: dispatch to
/// the named tool when `command-dispatch: tool` names a non-blank tool,
/// an error when the tool name is missing or blank, and prompt-only
/// mode — the body with the directory substituted — otherwise.
pub fn prepare_skill_invocation(content: &str, skill_dir: &str) -> (r: Result<
    SkillRunMode,
    RunModeError,
>)
    ensures
        ({
            let spec = spec_parse_command_frontmatter(content@);
            if spec.0.0 == Some("tool"@) {
                match r {
                    Ok(mode) => mode matches SkillRunMode::ToolDispatch { tool_name } && spec.0.1
                        == Some(tool_name@) && spec_trim(tool_name@).len() > 0,
                    Err(e) => e == RunModeError::MissingCommandTool && (match spec.0.1 {
                        Some(t) => spec_trim(t).len() == 0,
                        None => true,
                    }),
                }
            } else {
                r matches Ok(mode) && mode matches SkillRunMode::PromptOnly { instructions }
                    && instructions@ == spec_render_body(spec.1, skill_dir@)
            }
        }),
{
    let (fm, body) = parse_skill_frontmatter_and_body(content);
    let is_tool = match &fm.command_dispatch {
        Some(d) => str_eq(d.as_str(), "tool"),
        None => false,
    };
    if is_tool {
        match fm.command_tool {
            Some(t) => {
                if trim_str(t.as_str()).as_str().unicode_len() > 0 {
                    Ok(SkillRunMode::ToolDispatch { tool_name: t })
                } else {
                    Err(RunModeError::MissingCommandTool)
                }
            },
            None => Err(RunModeError::MissingCommandTool),
        }
    } else {
        Ok(SkillRunMode::PromptOnly { instructions: render_skill_body(body.as_str(), skill_dir) })
    }
}

/// Whether a user-supplied skill name is safe to resolve: free of
/// parent-directory references and of path separators.
pub open spec fn spec_safe_skill_name(name: Seq<char>) -> bool {
    &&& spec_find_pat(name, ".."@, 0) is None
    &&& forall|i: int| 0 <= i < name.len() ==> name[i] != '/' && name[i] != '\\'
}

/// Rejects skill names that could traverse outside the skills root.
pub fn is_safe_skill_name(name: &str) -> (r: bool)
    ensures
        r == spec_safe_skill_name(name@),
{
    let n: usize = name.unicode_len();
    let mut i: usize = 0;
    while i < n
        invariant
            n == name@.len(),
            i <= n,
            forall|j: int| 0 <= j < i ==> name@[j] != '/' && name@[j] != '\\',
            forall|j: int|
                0 <= j < i && j + 1 < n ==> !((#[trigger] name@[j]) == '.' && name@[j + 1] == '.'),
        decreases n - i,
    {
        let c = name.get_char(i);
        if c == '/' || c == '\\' {
            return false;
        }
        if c == '.' && i + 1 < n && name.get_char(i + 1) == '.' {
            proof {
                reveal_strlit("..");
                assert(".."@ =~= seq!['.', '.']);
                assert(name@.subrange(i as int, i as int + 2) =~= seq!['.', '.']);
                assert(pat_at(name@, ".."@, i as int));
                lemma_find_pat_finds(name@, ".."@, i as int);
            }
            return false;
        }
        i = i + 1;
    }
    proof {
        reveal_strlit("..");
        assert(".."@ =~= seq!['.', '.']);
        lemma_find_pat_le(name@, ".."@, 0);
        lemma_find_pat_found_at(name@, ".."@, 0);
        match spec_find_pat(name@, ".."@, 0) {
            Some(m) => {
                assert(pat_at(name@, ".."@, m));
                assert(name@.subrange(m, m + 2) == ".."@);
                assert(name@[m] == name@.subrange(m, m + 2)[0]);
                assert(name@[m + 1] == name@.subrange(m, m + 2)[1]);
                assert(name@[m] == '.' && name@[m + 1] == '.');
                assert(false);
            },
            None => {},
        }
    }
    true
}

/// A found pattern really occurs where the search says.
proof fn lemma_find_pat_found_at(s: Seq<char>, pat: Seq<char>, i: int)
    ensures
        spec_find_pat(s, pat, i) matches Some(m) ==> pat_at(s, pat, m),
    decreases s.len() - i,
{
    if 0 <= i <= s.len() && !pat_at(s, pat, i) && i < s.len() {
        lemma_find_pat_found_at(s, pat, i + 1);
    }
}

/// If the pattern occurs somewhere, the search from the start finds an
/// occurrence.
proof fn lemma_find_pat_finds(s: Seq<char>, pat: Seq<char>, i: int)
    requires
        0 <= i,
        pat_at(s, pat, i),
    ensures
        spec_find_pat(s, pat, 0) is Some,
    decreases i,
{
    lemma_find_pat_from_finds(s, pat, 0, i);
}

proof fn lemma_find_pat_from_finds(s: Seq<char>, pat: Seq<char>, lo: int, i: int)
    requires
        0 <= lo <= i,
        pat_at(s, pat, i),
    ensures
        spec_find_pat(s, pat, lo) is Some,
    decreases i - lo,
{
    if !pat_at(s, pat, lo) {
        assert(lo < i);
        assert(lo <= s.len());
        assert(lo < s.len() || lo == s.len());
        if lo == s.len() {
            assert(i + pat.len() <= s.len());
            assert(false);
        }
        lemma_find_pat_from_finds(s, pat, lo + 1, i);
    }
}

/// Why a skill name was rejected before any path was formed.
#[derive(Debug, Clone, PartialEq, Eq)]
pub enum SkillNameError {
    InvalidName { name: String },
}

impl SkillNameError {
    /// The rejection message, naming the offending skill name.
    pub fn message(&self) -> (r: String)
        ensures
            match self {
                SkillNameError::InvalidName { name } => r@ == "Invalid skill name: "@ + name@,
            },
    {
        match self {
            SkillNameError::InvalidName { name } => {
                let mut m = "Invalid skill name: ".to_owned();
                m.append(name.as_str());
                m
            },
        }
    }
}

/// The path a skill run resolves, before the file system is consulted:
/// a safe name joined under the workspace's skills directory.  Unsafe
/// names are rejected with no path ever formed; the caller still has to
/// canonicalize the result and confirm it stays inside the skills root
/// and holds a manifest.
pub fn resolve_eligible_skill_dir(workspace_dir: &str, skill_name: &str) -> (r: Result<
    String,
    SkillNameError,
>)
    ensures
        match r {
            Ok(p) => spec_safe_skill_name(skill_name@) && p@ == spec_join_path(
                spec_join_path(workspace_dir@, "skills"@),
                skill_name@,
            ),
            Err(e) => !spec_safe_skill_name(skill_name@) && (e
                matches SkillNameError::InvalidName { name } && name@ == skill_name@),
        },
{
    if !is_safe_skill_name(skill_name) {
        return Err(SkillNameError::InvalidName { name: skill_name.to_owned() });
    }
    let base = join_path(workspace_dir, "skills");
    Ok(join_path(base.as_str(), skill_name))
}

} // verus!
