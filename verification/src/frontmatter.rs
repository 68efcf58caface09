//! The strict single-skill inspection parser: a manifest must carry one
//! well-formed frontmatter block delimited by bare `---` lines, with
//! mandatory `name` and `description` keys and an optional `metadata`
//! key whose value must parse as a JSON object.  Unlike bulk discovery,
//! every violation here is a hard error surfaced to the caller.

use vstd::prelude::*;
use crate::text::{spec_trim, spec_lines, split_lines, trim_str, str_eq, views_of};

verus! {

/// The frontmatter of a strictly inspected skill document.  The
/// metadata is kept as its raw JSON text, already validated to parse as
/// a JSON object.
#[derive(Debug, Clone, PartialEq)]
pub struct SkillFrontmatter {
    pub name: String,
    pub description: String,
    pub metadata: Option<String>,
}

/// A strictly inspected skill: its frontmatter, where it was found,
/// and the eligibility verdict attached by the scan.
#[derive(Debug, Clone, PartialEq)]
pub struct ParsedSkill {
    pub frontmatter: SkillFrontmatter,
    pub skill_dir: String,
    pub skill_md_path: String,
    pub eligible: bool,
    pub reason: String,
}

/// Why strict inspection rejected a document.
#[derive(Debug, Clone, Copy, PartialEq, Eq, Structural)]
pub enum FrontmatterError {
    MissingStartDelimiter,
    MissingEndDelimiter,
    InvalidMetadataJson,
    MetadataNotObject,
    MissingName,
    MissingDescription,
}

impl FrontmatterError {
    /// The error's message, as strict inspection reports it.
    pub fn message(&self) -> (r: &'static str)
        ensures
            r@ == self.spec_message(),
    {
        match self {
            FrontmatterError::MissingStartDelimiter => "missing frontmatter start delimiter",
            FrontmatterError::MissingEndDelimiter => "missing frontmatter end delimiter",
            FrontmatterError::InvalidMetadataJson => "metadata must be valid JSON object",
            FrontmatterError::MetadataNotObject => "metadata must be a JSON object",
            FrontmatterError::MissingName => "missing required frontmatter key: name",
            FrontmatterError::MissingDescription => "missing required frontmatter key: description",
        }
    }

    pub open spec fn spec_message(&self) -> Seq<char> {
        match self {
            FrontmatterError::MissingStartDelimiter => "missing frontmatter start delimiter"@,
            FrontmatterError::MissingEndDelimiter => "missing frontmatter end delimiter"@,
            FrontmatterError::InvalidMetadataJson => "metadata must be valid JSON object"@,
            FrontmatterError::MetadataNotObject => "metadata must be a JSON object"@,
            FrontmatterError::MissingName => "missing required frontmatter key: name"@,
            FrontmatterError::MissingDescription => "missing required frontmatter key: description"@,
        }
    }
}

/// How the metadata text fares as JSON: not JSON at all, JSON but not
/// an object, or a JSON object.
#[derive(Debug, Clone, Copy, PartialEq, Eq, Structural)]
pub enum MetadataJsonClass {
    Invalid,
    NotObject,
    Object,
}

/// The JSON classification of a metadata value.
pub uninterp spec fn metadata_json_class_of(s: Seq<char>) -> MetadataJsonClass;

/// Relies on `serde_json::from_str::<serde_json::Value>` and
/// `serde_json::Value::is_object`: whether the text parses as JSON at
/// all, and whether the parsed document is a JSON object.
#[verifier::external_body]
fn classify_metadata_json(s: &str) -> (r: MetadataJsonClass)
    ensures
        r == metadata_json_class_of(s@),
{
    match serde_json::from_str::<serde_json::Value>(s) {
        Err(_) => MetadataJsonClass::Invalid,
        Ok(v) => if v.is_object() {
            MetadataJsonClass::Object
        } else {
            MetadataJsonClass::NotObject
        },
    }
}

/// The position of the first colon, or the length when there is none.
pub open spec fn find_colon(s: Seq<char>) -> nat
    decreases s.len(),
{
    if s.len() == 0 || s[0] == ':' {
        0
    } else {
        (1 + find_colon(s.drop_first())) as nat
    }
}

pub proof fn lemma_find_colon_is(s: Seq<char>, i: int)
    requires
        0 <= i <= s.len(),
        forall|j: int| 0 <= j < i ==> s[j] != ':',
        i < s.len() ==> s[i] == ':',
    ensures
        find_colon(s) == i,
    decreases s.len(),
{
    if s.len() > 0 && s[0] != ':' {
        assert(i >= 1);
        lemma_find_colon_is(s.drop_first(), i - 1);
    }
}

/// The running state of the frontmatter key scan: the latest `name`,
/// `description` and validated `metadata` values seen so far.
pub open spec fn spec_fm_line(
    st: (Option<Seq<char>>, Option<Seq<char>>, Option<Seq<char>>),
    l: Seq<char>,
) -> Result<(Option<Seq<char>>, Option<Seq<char>>, Option<Seq<char>>), FrontmatterError> {
    let t = spec_trim(l);
    if t.len() == 0 || t[0] == '#' {
        Ok(st)
    } else if find_colon(t) >= t.len() {
        Ok(st)
    } else {
        let key = spec_trim(t.take(find_colon(t) as int));
        let value = spec_trim(t.skip(find_colon(t) as int + 1));
        if key == "name"@ {
            Ok((Some(value), st.1, st.2))
        } else if key == "description"@ {
            Ok((st.0, Some(value), st.2))
        } else if key == "metadata"@ {
            match metadata_json_class_of(value) {
                MetadataJsonClass::Invalid => Err(FrontmatterError::InvalidMetadataJson),
                MetadataJsonClass::NotObject => Err(FrontmatterError::MetadataNotObject),
                MetadataJsonClass::Object => Ok((st.0, st.1, Some(value))),
            }
        } else {
            Ok(st)
        }
    }
}

/// Scans the frontmatter lines in order, later values of a key
/// overwriting earlier ones, stopping at the first metadata error.
pub open spec fn spec_fm_fold(ls: Seq<Seq<char>>) -> Result<
    (Option<Seq<char>>, Option<Seq<char>>, Option<Seq<char>>),
    FrontmatterError,
>
    decreases ls.len(),
{
    if ls.len() == 0 {
        Ok((None, None, None))
    } else {
        match spec_fm_fold(ls.drop_last()) {
            Err(e) => Err(e),
            Ok(st) => spec_fm_line(st, ls.last()),
        }
    }
}

/// The first line at or after `i` that trims to the bare delimiter.
pub open spec fn spec_find_end_from(ls: Seq<Seq<char>>, i: int) -> Option<int>
    decreases ls.len() - i,
{
    if i < 0 || i >= ls.len() {
        None
    } else if spec_trim(ls[i]) == "---"@ {
        Some(i)
    } else {
        spec_find_end_from(ls, i + 1)
    }
}

/// What strict inspection makes of the document: the name, description
/// and optional metadata text, or the first hard error.
pub open spec fn spec_parse_frontmatter(content: Seq<char>) -> Result<
    (Seq<char>, Seq<char>, Option<Seq<char>>),
    FrontmatterError,
> {
    let ls = spec_lines(content);
    if !(ls.len() > 0 && spec_trim(ls[0]) == "---"@) {
        Err(FrontmatterError::MissingStartDelimiter)
    } else {
        match spec_find_end_from(ls, 1) {
            None => Err(FrontmatterError::MissingEndDelimiter),
            Some(end) => match spec_fm_fold(ls.subrange(1, end)) {
                Err(e) => Err(e),
                Ok(st) => if !(st.0 matches Some(n) && n.len() > 0) {
                    Err(FrontmatterError::MissingName)
                } else if !(st.1 matches Some(d) && d.len() > 0) {
                    Err(FrontmatterError::MissingDescription)
                } else {
                    Ok((st.0->0, st.1->0, st.2))
                },
            },
        }
    }
}

/// An errored scan stays errored under more lines.
proof fn lemma_fm_fold_err_extend(pre: Seq<Seq<char>>, ext: Seq<Seq<char>>, e: FrontmatterError)
    requires
        spec_fm_fold(pre) == Err::<
            (Option<Seq<char>>, Option<Seq<char>>, Option<Seq<char>>),
            FrontmatterError,
        >(e),
    ensures
        spec_fm_fold(pre + ext) == Err::<
            (Option<Seq<char>>, Option<Seq<char>>, Option<Seq<char>>),
            FrontmatterError,
        >(e),
    decreases ext.len(),
{
    if ext.len() == 0 {
        assert(pre + ext =~= pre);
    } else {
        assert((pre + ext).drop_last() =~= pre + ext.drop_last());
        lemma_fm_fold_err_extend(pre, ext.drop_last(), e);
    }
}

/// Splits a trimmed line at its first colon, yielding the trimmed key
/// and value, or nothing when the line has no colon.
fn split_key_value(t: &str) -> (r: Option<(String, String)>)
    ensures
        match r {
            Some(kv) => find_colon(t@) < t@.len() && kv.0@ == spec_trim(
                t@.take(find_colon(t@) as int),
            ) && kv.1@ == spec_trim(t@.skip(find_colon(t@) as int + 1)),
            None => find_colon(t@) >= t@.len(),
        },
{
    let n: usize = t.unicode_len();
    let mut i: usize = 0;
    while i < n && t.get_char(i) != ':'
        invariant
            n == t@.len(),
            i <= n,
            forall|j: int| 0 <= j < i ==> t@[j] != ':',
        decreases n - i,
    {
        i = i + 1;
    }
    proof {
        lemma_find_colon_is(t@, i as int);
    }
    if i >= n {
        return None;
    }
    let key = trim_str(t.substring_char(0, i));
    let value = trim_str(t.substring_char(i + 1, n));
    proof {
        assert(t@.subrange(0, i as int) =~= t@.take(i as int));
        assert(t@.subrange(i as int + 1, n as int) =~= t@.skip(i as int + 1));
    }
    Some((key, value))
}

/// Strictly parses a skill document's frontmatter: bare `---` delimiter
/// lines around key-value lines, `name` and `description` mandatory and
/// non-empty, `metadata` optional but required to be a JSON object.
pub fn parse_skill_md_content(content: &str) -> (r: Result<SkillFrontmatter, FrontmatterError>)
    ensures
        match r {
            Ok(fm) => spec_parse_frontmatter(content@) matches Ok(t) && fm.name@ == t.0
                && fm.description@ == t.1 && (match fm.metadata {
                Some(m) => t.2 == Some(m@),
                None => t.2 is None,
            }),
            Err(e) => spec_parse_frontmatter(content@) == Err::<
                (Seq<char>, Seq<char>, Option<Seq<char>>),
                FrontmatterError,
            >(e),
        },
{
    let lines = split_lines(content);
    let ghost ls = spec_lines(content@);
    proof {
        assert(views_of(lines@) == ls);
    }
    if lines.len() == 0 {
        return Err(FrontmatterError::MissingStartDelimiter);
    }
    let first = trim_str(lines[0].as_str());
    if !str_eq(first.as_str(), "---") {
        return Err(FrontmatterError::MissingStartDelimiter);
    }
    // find the end delimiter
    let n: usize = lines.len();
    let mut end: usize = 1;
    let mut found = false;
    while end < n && !found
        invariant
            n == lines@.len(),
            views_of(lines@) == ls,
            ls == spec_lines(content@),
            1 <= end <= n,
            found ==> end < n && spec_trim(ls[end as int]) == "---"@,
            found ==> spec_find_end_from(ls, 1) == Some(end as int),
            !found ==> spec_find_end_from(ls, 1) == spec_find_end_from(ls, end as int),
        decreases n - end + (if found {
            0int
        } else {
            1int
        }),
    {
        let t = trim_str(lines[end].as_str());
        if str_eq(t.as_str(), "---") {
            proof {
                assert(spec_find_end_from(ls, end as int) == Some(end as int));
            }
            found = true;
        } else {
            end = end + 1;
        }
    }
    if !found {
        proof {
            assert(spec_find_end_from(ls, n as int) is None);
        }
        return Err(FrontmatterError::MissingEndDelimiter);
    }
    proof {
        assert(spec_find_end_from(ls, end as int) == Some(end as int));
        assert(spec_find_end_from(ls, 1) == Some(end as int));
    }
    // scan the lines between the delimiters
    let mut name: Option<String> = None;
    let mut description: Option<String> = None;
    let mut metadata: Option<String> = None;
    let mut i: usize = 1;
    proof {
        assert(ls.subrange(1, 1) =~= Seq::<Seq<char>>::empty());
    }
    while i < end
        invariant
            n == lines@.len(),
            views_of(lines@) == ls,
            ls == spec_lines(content@),
            1 <= i <= end < n,
            spec_fm_fold(ls.subrange(1, i as int)) == Ok::<
                (Option<Seq<char>>, Option<Seq<char>>, Option<Seq<char>>),
                FrontmatterError,
            >(
                (
                    match name {
                        Some(v) => Some(v@),
                        None => None,
                    },
                    match description {
                        Some(v) => Some(v@),
                        None => None,
                    },
                    match metadata {
                        Some(v) => Some(v@),
                        None => None,
                    },
                ),
            ),
            spec_find_end_from(ls, 1) == Some(end as int),
            spec_trim(ls[0]) == "---"@,
        decreases end - i,
    {
        let ghost st = (
            match &name {
                Some(v) => Some(v@),
                None => None,
            },
            match &description {
                Some(v) => Some(v@),
                None => None,
            },
            match &metadata {
                Some(v) => Some(v@),
                None => None,
            },
        );
        let ghost prefix = ls.subrange(1, i as int);
        let t = trim_str(lines[i].as_str());
        let skip_line = t.as_str().unicode_len() == 0 || t.as_str().get_char(0) == '#';
        if !skip_line {
            match split_key_value(t.as_str()) {
                None => {},
                Some((key, value)) => {
                    if str_eq(key.as_str(), "name") {
                        name = Some(value);
                    } else if str_eq(key.as_str(), "description") {
                        description = Some(value);
                    } else if str_eq(key.as_str(), "metadata") {
                        match classify_metadata_json(value.as_str()) {
                            MetadataJsonClass::Invalid => {
                                proof {
                                    assert(spec_fm_line(st, ls[i as int]) == Err::<
                                        (Option<Seq<char>>, Option<Seq<char>>, Option<Seq<char>>),
                                        FrontmatterError,
                                    >(FrontmatterError::InvalidMetadataJson));
                                    assert(ls.subrange(1, i as int + 1).drop_last() =~= prefix);
                                    assert(ls.subrange(1, i as int + 1).last() == ls[i as int]);
                                    assert(spec_fm_fold(ls.subrange(1, i as int + 1)) == Err::<
                                        (Option<Seq<char>>, Option<Seq<char>>, Option<Seq<char>>),
                                        FrontmatterError,
                                    >(FrontmatterError::InvalidMetadataJson));
                                    lemma_fm_fold_err_extend(
                                        ls.subrange(1, i as int + 1),
                                        ls.subrange(i as int + 1, end as int),
                                        FrontmatterError::InvalidMetadataJson,
                                    );
                                    assert(ls.subrange(1, i as int + 1) + ls.subrange(
                                        i as int + 1,
                                        end as int,
                                    ) =~= ls.subrange(1, end as int));
                                }
                                return Err(FrontmatterError::InvalidMetadataJson);
                            },
                            MetadataJsonClass::NotObject => {
                                proof {
                                    assert(spec_fm_line(st, ls[i as int]) == Err::<
                                        (Option<Seq<char>>, Option<Seq<char>>, Option<Seq<char>>),
                                        FrontmatterError,
                                    >(FrontmatterError::MetadataNotObject));
                                    assert(ls.subrange(1, i as int + 1).drop_last() =~= prefix);
                                    assert(ls.subrange(1, i as int + 1).last() == ls[i as int]);
                                    assert(spec_fm_fold(ls.subrange(1, i as int + 1)) == Err::<
                                        (Option<Seq<char>>, Option<Seq<char>>, Option<Seq<char>>),
                                        FrontmatterError,
                                    >(FrontmatterError::MetadataNotObject));
                                    lemma_fm_fold_err_extend(
                                        ls.subrange(1, i as int + 1),
                                        ls.subrange(i as int + 1, end as int),
                                        FrontmatterError::MetadataNotObject,
                                    );
                                    assert(ls.subrange(1, i as int + 1) + ls.subrange(
                                        i as int + 1,
                                        end as int,
                                    ) =~= ls.subrange(1, end as int));
                                }
                                return Err(FrontmatterError::MetadataNotObject);
                            },
                            MetadataJsonClass::Object => {
                                metadata = Some(value);
                            },
                        }
                    }
                },
            }
        }
        proof {
            assert(ls.subrange(1, i as int + 1).drop_last() =~= prefix);
            assert(ls.subrange(1, i as int + 1).last() == ls[i as int]);
        }
        i = i + 1;
    }
    let name = match name {
        Some(v) => v,
        None => {
            return Err(FrontmatterError::MissingName);
        },
    };
    if name.as_str().unicode_len() == 0 {
        return Err(FrontmatterError::MissingName);
    }
    let description = match description {
        Some(v) => v,
        None => {
            return Err(FrontmatterError::MissingDescription);
        },
    };
    if description.as_str().unicode_len() == 0 {
        return Err(FrontmatterError::MissingDescription);
    }
    Ok(SkillFrontmatter { name, description, metadata })
}

} // verus!
