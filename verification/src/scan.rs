//! The command-focused scan: strict inspection of every `SKILL.md`
//! found under a skills root.  The collected files are visited in
//! sorted path order and each one must parse; any violation aborts the
//! whole scan with that file's error, in deliberate contrast to the
//! lenient bulk discovery.

use vstd::prelude::*;
use vstd::multiset::Multiset;
use vstd::seq_lib::group_to_multiset_ensures;
use crate::frontmatter::{
    FrontmatterError, ParsedSkill, SkillFrontmatter, parse_skill_md_content,
    spec_parse_frontmatter,
};

verus! {

/// One `SKILL.md` found by the walk: its directory, its path, and its
/// text.
#[derive(Debug, Clone)]
pub struct SkillScanFile {
    pub skill_dir: String,
    pub skill_md_path: String,
    pub content: String,
}

/// Lexicographic order on code points: the order `str`'s own ordering
/// gives, since UTF-8 byte order coincides with code-point order.
pub open spec fn lex_le(a: Seq<char>, b: Seq<char>) -> bool
    decreases a.len(),
{
    if a.len() == 0 {
        true
    } else if b.len() == 0 {
        false
    } else if (a[0] as u32) < (b[0] as u32) {
        true
    } else if (a[0] as u32) > (b[0] as u32) {
        false
    } else {
        lex_le(a.drop_first(), b.drop_first())
    }
}

pub proof fn lemma_lex_total(a: Seq<char>, b: Seq<char>)
    ensures
        lex_le(a, b) || lex_le(b, a),
    decreases a.len(),
{
    if a.len() > 0 && b.len() > 0 && (a[0] as u32) == (b[0] as u32) {
        lemma_lex_total(a.drop_first(), b.drop_first());
    }
}

pub proof fn lemma_lex_refl(a: Seq<char>)
    ensures
        lex_le(a, a),
    decreases a.len(),
{
    if a.len() > 0 {
        lemma_lex_refl(a.drop_first());
    }
}

pub proof fn lemma_lex_trans(a: Seq<char>, b: Seq<char>, c: Seq<char>)
    requires
        lex_le(a, b),
        lex_le(b, c),
    ensures
        lex_le(a, c),
    decreases a.len(),
{
    if a.len() > 0 && b.len() > 0 && c.len() > 0 && (a[0] as u32) == (b[0] as u32) && (b[0] as u32)
        == (c[0] as u32) {
        lemma_lex_trans(a.drop_first(), b.drop_first(), c.drop_first());
    }
}

/// Code-point-wise string comparison, equivalent to `lex_le` on the
/// views.
pub fn str_le(a: &str, b: &str) -> (r: bool)
    ensures
        r == lex_le(a@, b@),
{
    let an: usize = a.unicode_len();
    let bn: usize = b.unicode_len();
    let mut i: usize = 0;
    proof {
        assert(a@.skip(0) =~= a@);
        assert(b@.skip(0) =~= b@);
    }
    while i < an && i < bn
        invariant
            an == a@.len(),
            bn == b@.len(),
            i <= an,
            i <= bn,
            lex_le(a@, b@) == lex_le(a@.skip(i as int), b@.skip(i as int)),
        decreases an - i,
    {
        let ca = a.get_char(i) as u32;
        let cb = b.get_char(i) as u32;
        proof {
            assert(a@.skip(i as int)[0] == a@[i as int]);
            assert(b@.skip(i as int)[0] == b@[i as int]);
            assert(a@.skip(i as int).drop_first() =~= a@.skip(i as int + 1));
            assert(b@.skip(i as int).drop_first() =~= b@.skip(i as int + 1));
        }
        if ca < cb {
            return true;
        }
        if ca > cb {
            return false;
        }
        i = i + 1;
    }
    proof {
        if i >= an {
            assert(a@.skip(i as int).len() == 0);
        } else {
            assert(b@.skip(i as int).len() == 0);
            assert(a@.skip(i as int).len() > 0);
        }
    }
    i >= an
}

/// Whether the files stand in ascending path order.
pub open spec fn paths_sorted(fs: Seq<SkillScanFile>) -> bool {
    forall|i: int, j: int|
        0 <= i < j < fs.len() ==> lex_le(
            #[trigger] fs[i].skill_md_path@,
            #[trigger] fs[j].skill_md_path@,
        )
}

/// Sorts the files by path, code-point order, keeping exactly the same
/// files.
pub fn sort_scan_files(files: Vec<SkillScanFile>) -> (r: Vec<SkillScanFile>)
    ensures
        paths_sorted(r@),
        r@.to_multiset() == files@.to_multiset(),
{
    broadcast use group_to_multiset_ensures;

    let ghost orig = files@;
    let mut rest = files;
    let mut out: Vec<SkillScanFile> = Vec::new();
    proof {
        assert(out@.to_multiset().add(rest@.to_multiset()) =~= orig.to_multiset());
    }
    while rest.len() > 0
        invariant
            paths_sorted(out@),
            forall|i: int, j: int|
                0 <= i < out@.len() && 0 <= j < rest@.len() ==> lex_le(
                    #[trigger] out@[i].skill_md_path@,
                    #[trigger] rest@[j].skill_md_path@,
                ),
            out@.to_multiset().add(rest@.to_multiset()) == orig.to_multiset(),
        decreases rest.len(),
    {
        // find the index of a minimal remaining path
        let rn: usize = rest.len();
        let mut mi: usize = 0;
        let mut j: usize = 1;
        proof {
            lemma_lex_refl(rest@[0].skill_md_path@);
        }
        while j < rn
            invariant
                rn == rest@.len(),
                mi < rn,
                1 <= j <= rn,
                forall|k: int|
                    0 <= k < j ==> lex_le(
                        rest@[mi as int].skill_md_path@,
                        #[trigger] rest@[k].skill_md_path@,
                    ),
            decreases rn - j,
        {
            if str_le(rest[j].skill_md_path.as_str(), rest[mi].skill_md_path.as_str()) {
                let ghost old_mi = mi as int;
                mi = j;
                proof {
                    assert forall|k: int|
                        0 <= k < j + 1 implies lex_le(
                        rest@[mi as int].skill_md_path@,
                        #[trigger] rest@[k].skill_md_path@,
                    ) by {
                        if k < j {
                            lemma_lex_trans(
                                rest@[mi as int].skill_md_path@,
                                rest@[old_mi].skill_md_path@,
                                rest@[k].skill_md_path@,
                            );
                        } else {
                            lemma_lex_refl(rest@[mi as int].skill_md_path@);
                        }
                    }
                }
            } else {
                proof {
                    lemma_lex_total(
                        rest@[j as int].skill_md_path@,
                        rest@[mi as int].skill_md_path@,
                    );
                }
            }
            j = j + 1;
        }
        let ghost rest_before = rest@;
        let x = rest.remove(mi);
        let ghost out_before = out@;
        out.push(x);
        proof {
            assert(x == rest_before[mi as int]);
            assert(out@ == out_before.push(x));
            assert(rest@ == rest_before.remove(mi as int));
            out_before.to_multiset_ensures();
            rest_before.to_multiset_ensures();
            // the new last element respects the existing order
            assert forall|i: int, jj: int| 0 <= i < jj < out@.len() implies lex_le(
                #[trigger] out@[i].skill_md_path@,
                #[trigger] out@[jj].skill_md_path@,
            ) by {
                if jj == out@.len() - 1 {
                    assert(out@[i] == out_before[i]);
                    assert(out@[jj] == x);
                } else {
                    assert(out@[i] == out_before[i] && out@[jj] == out_before[jj]);
                }
            }
            // everything left is at or above the minimum just taken
            assert forall|i: int, jj: int|
                0 <= i < out@.len() && 0 <= jj < rest@.len() implies lex_le(
                #[trigger] out@[i].skill_md_path@,
                #[trigger] rest@[jj].skill_md_path@,
            ) by {
                let ghost src = if jj < mi as int {
                    jj
                } else {
                    jj + 1
                };
                assert(rest@[jj] == rest_before[src]);
                if i < out@.len() - 1 {
                    assert(out@[i] == out_before[i]);
                } else {
                    assert(out@[i] == x);
                }
            }
            // the same files, one moved from the remainder to the output
            assert(out_before.push(x).to_multiset() =~= out_before.to_multiset().insert(x));
            assert(rest_before.remove(mi as int).to_multiset() =~= rest_before.to_multiset().remove(
                rest_before[mi as int],
            ));
            assert(rest_before.to_multiset().count(x) >= 1);
            assert(out@.to_multiset().add(rest@.to_multiset()) =~= out_before.to_multiset().add(
                rest_before.to_multiset(),
            ));
        }
    }
    proof {
        assert(rest@.to_multiset() =~= Multiset::<SkillScanFile>::empty());
        assert(out@.to_multiset().add(Multiset::<SkillScanFile>::empty()) =~= out@.to_multiset());
    }
    out
}

/// How a strictly parsed skill relates to the file it came from.
pub open spec fn parsed_matches(f: SkillScanFile, p: ParsedSkill) -> bool {
    &&& spec_parse_frontmatter(f.content@) matches Ok(t) && {
        &&& p.frontmatter.name@ == t.0
        &&& p.frontmatter.description@ == t.1
        &&& match p.frontmatter.metadata {
            Some(m) => t.2 == Some(m@),
            None => t.2 is None,
        }
    }
    &&& p.skill_dir == f.skill_dir
    &&& p.skill_md_path == f.skill_md_path
    &&& p.eligible
    &&& p.reason@.len() == 0
}

/// Strictly parses the collected skill documents in sorted path order.
/// Every file must carry well-formed frontmatter: the scan succeeds
/// exactly when all of them parse, and otherwise surfaces a failing
/// file's error.
pub fn scan_skills(files: Vec<SkillScanFile>) -> (r: Result<Vec<ParsedSkill>, FrontmatterError>)
    ensures
        match r {
            Ok(ps) => exists|sorted: Seq<SkillScanFile>|
                {
                    &&& #[trigger] sorted.to_multiset() == files@.to_multiset()
                    &&& paths_sorted(sorted)
                    &&& ps@.len() == sorted.len()
                    &&& forall|i: int| 0 <= i < sorted.len() ==> parsed_matches(sorted[i], ps@[i])
                },
            Err(e) => exists|i: int|
                0 <= i < files@.len() && #[trigger] spec_parse_frontmatter(files@[i].content@)
                    == Err::<(Seq<char>, Seq<char>, Option<Seq<char>>), FrontmatterError>(e),
        },
{
    broadcast use group_to_multiset_ensures;

    let ghost orig = files@;
    let sorted = sort_scan_files(files);
    let ghost sorted_view = sorted@;
    let n: usize = sorted.len();
    let mut out: Vec<ParsedSkill> = Vec::new();
    let mut i: usize = 0;
    while i < n
        invariant
            n == sorted@.len(),
            sorted@ == sorted_view,
            orig == files@,
            sorted@.to_multiset() == orig.to_multiset(),
            i <= n,
            out@.len() == i,
            forall|j: int| 0 <= j < i ==> parsed_matches(sorted@[j], out@[j]),
        decreases n - i,
    {
        let f = &sorted[i];
        match parse_skill_md_content(f.content.as_str()) {
            Ok(fm) => {
                out.push(
                    ParsedSkill {
                        frontmatter: fm,
                        skill_dir: f.skill_dir.clone(),
                        skill_md_path: f.skill_md_path.clone(),
                        eligible: true,
                        reason: String::new(),
                    },
                );
            },
            Err(e) => {
                proof {
                    sorted@.to_multiset_ensures();
                    orig.to_multiset_ensures();
                    assert(sorted@.contains(sorted@[i as int]));
                    assert(sorted@.to_multiset().count(sorted@[i as int]) >= 1);
                    assert(orig.to_multiset().count(sorted@[i as int]) >= 1);
                    assert(orig.contains(sorted@[i as int]));
                    let w = choose|w: int| 0 <= w < orig.len() && orig[w] == sorted@[i as int];
                    assert(spec_parse_frontmatter(orig[w].content@) == Err::<
                        (Seq<char>, Seq<char>, Option<Seq<char>>),
                        FrontmatterError,
                    >(e));
                }
                return Err(e);
            },
        }
        i = i + 1;
    }
    proof {
        assert(sorted@.to_multiset() == files@.to_multiset() && paths_sorted(sorted@) && out@.len()
            == sorted@.len() && (forall|j: int|
            0 <= j < sorted@.len() ==> parsed_matches(sorted@[j], out@[j])));
    }
    Ok(out)
}

} // verus!
