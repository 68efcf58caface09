//! Verified text utilities: whitespace, trimming, line splitting and
//! character-level string comparison, shared by the manifest parsers and
//! the command parser.

use vstd::prelude::*;

verus! {

/// The Unicode `White_Space` code points, as `char::is_whitespace` accepts them.
pub open spec fn is_space_c(c: char) -> bool {
    let n = c as u32;
    (9 <= n && n <= 13) || n == 32 || n == 0x85 || n == 0xA0 || n == 0x1680 || (0x2000 <= n
        && n <= 0x200A) || n == 0x2028 || n == 0x2029 || n == 0x202F || n == 0x205F || n == 0x3000
}

pub fn is_space_char(c: char) -> (r: bool)
    ensures
        r == is_space_c(c),
{
    let n = c as u32;
    (9 <= n && n <= 13) || n == 32 || n == 0x85 || n == 0xA0 || n == 0x1680 || (0x2000 <= n
        && n <= 0x200A) || n == 0x2028 || n == 0x2029 || n == 0x202F || n == 0x205F || n == 0x3000
}

/// Character-wise string equality, equivalent to equality of the views.
pub fn str_eq(a: &str, b: &str) -> (r: bool)
    ensures
        r == (a@ == b@),
{
    let an: usize = a.unicode_len();
    let bn: usize = b.unicode_len();
    if an != bn {
        return false;
    }
    let mut i: usize = 0;
    while i < an
        invariant
            an == a@.len(),
            an == b@.len(),
            i <= an,
            forall|j: int| 0 <= j < i ==> a@[j] == b@[j],
        decreases an - i,
    {
        if a.get_char(i) != b.get_char(i) {
            return false;
        }
        i = i + 1;
    }
    proof {
        assert(a@ =~= b@);
    }
    true
}

/// Number of leading whitespace characters.
pub open spec fn trim_start_len(s: Seq<char>) -> nat
    decreases s.len(),
{
    if s.len() > 0 && is_space_c(s[0]) {
        (1 + trim_start_len(s.drop_first())) as nat
    } else {
        0
    }
}

/// Number of trailing whitespace characters.
pub open spec fn trim_end_len(s: Seq<char>) -> nat
    decreases s.len(),
{
    if s.len() > 0 && is_space_c(s.last()) {
        (1 + trim_end_len(s.drop_last())) as nat
    } else {
        0
    }
}

pub proof fn lemma_trim_start_len_le(s: Seq<char>)
    ensures
        trim_start_len(s) <= s.len(),
    decreases s.len(),
{
    if s.len() > 0 && is_space_c(s[0]) {
        lemma_trim_start_len_le(s.drop_first());
    }
}

pub proof fn lemma_trim_end_len_le(s: Seq<char>)
    ensures
        trim_end_len(s) <= s.len(),
    decreases s.len(),
{
    if s.len() > 0 && is_space_c(s.last()) {
        lemma_trim_end_len_le(s.drop_last());
    }
}

/// The string with leading and trailing whitespace removed, as `str::trim`.
pub open spec fn spec_trim(s: Seq<char>) -> Seq<char> {
    let a = trim_start_len(s) as int;
    let b = s.len() - trim_end_len(s);
    if a <= b {
        s.subrange(a, b)
    } else {
        Seq::empty()
    }
}

/// A prefix of whitespace of length `i`, not followed by more whitespace,
/// pins down `trim_start_len`.
pub proof fn lemma_trim_start_len_is(s: Seq<char>, i: int)
    requires
        0 <= i <= s.len(),
        forall|j: int| 0 <= j < i ==> is_space_c(s[j]),
        i < s.len() ==> !is_space_c(s[i]),
    ensures
        trim_start_len(s) == i,
    decreases s.len(),
{
    if s.len() > 0 && is_space_c(s[0]) {
        assert(i >= 1);
        lemma_trim_start_len_is(s.drop_first(), i - 1);
    }
}

pub proof fn lemma_trim_end_len_is(s: Seq<char>, i: int)
    requires
        0 <= i <= s.len(),
        forall|j: int| i <= j < s.len() ==> is_space_c(s[j]),
        i > 0 ==> !is_space_c(s[i - 1]),
    ensures
        trim_end_len(s) == s.len() - i,
    decreases s.len(),
{
    if s.len() > 0 && is_space_c(s.last()) {
        assert(i < s.len());
        lemma_trim_end_len_is(s.drop_last(), i);
    }
}

/// `str::trim`, verified against `spec_trim`.
pub fn trim_str(s: &str) -> (r: String)
    ensures
        r@ == spec_trim(s@),
{
    let n: usize = s.unicode_len();
    let mut a: usize = 0;
    while a < n && is_space_char(s.get_char(a))
        invariant
            n == s@.len(),
            a <= n,
            forall|j: int| 0 <= j < a ==> is_space_c(s@[j]),
        decreases n - a,
    {
        a = a + 1;
    }
    proof {
        lemma_trim_start_len_is(s@, a as int);
    }
    if a == n {
        proof {
            lemma_trim_end_len_le(s@);
        }
        let r = s.substring_char(n, n);
        proof {
            assert(r@ =~= spec_trim(s@));
        }
        return r.to_owned();
    }
    let mut b: usize = n;
    while b > a && is_space_char(s.get_char(b - 1))
        invariant
            n == s@.len(),
            a <= b <= n,
            forall|j: int| b <= j < n ==> is_space_c(s@[j]),
        decreases b,
    {
        b = b - 1;
    }
    // the character at `a` is not whitespace, so the scan from the right
    // stops at or after `a + 1`
    proof {
        assert(!is_space_c(s@[a as int]));
        assert(b > a);
        lemma_trim_end_len_is(s@, b as int);
    }
    let r = s.substring_char(a, b);
    proof {
        assert(r@ =~= spec_trim(s@));
    }
    r.to_owned()
}

/// Length of the first line: the number of characters before the first `'\n'`.
pub open spec fn line_len(s: Seq<char>) -> nat
    decreases s.len(),
{
    if s.len() == 0 || s[0] == '\n' {
        0
    } else {
        (1 + line_len(s.drop_first())) as nat
    }
}

pub proof fn lemma_line_len_le(s: Seq<char>)
    ensures
        line_len(s) <= s.len(),
    decreases s.len(),
{
    if s.len() > 0 && s[0] != '\n' {
        lemma_line_len_le(s.drop_first());
    }
}

/// A newline-free prefix of length `i` followed by `'\n'` or the end pins
/// down `line_len`.
pub proof fn lemma_line_len_is(s: Seq<char>, i: int)
    requires
        0 <= i <= s.len(),
        forall|j: int| 0 <= j < i ==> s[j] != '\n',
        i < s.len() ==> s[i] == '\n',
    ensures
        line_len(s) == i,
    decreases s.len(),
{
    if s.len() > 0 && s[0] != '\n' {
        assert(i >= 1);
        lemma_line_len_is(s.drop_first(), i - 1);
    }
}

/// The first line, with a trailing `'\r'` removed, as `str::lines` yields it.
pub open spec fn first_line(s: Seq<char>) -> Seq<char> {
    let raw = s.take(line_len(s) as int);
    if raw.len() > 0 && raw.last() == '\r' {
        raw.drop_last()
    } else {
        raw
    }
}

/// What remains after the first line and its `'\n'` terminator.
pub open spec fn rest_after_line(s: Seq<char>) -> Seq<char> {
    if line_len(s) >= s.len() {
        Seq::empty()
    } else {
        s.skip(line_len(s) as int + 1)
    }
}

/// The lines of the text, as `str::lines` yields them: split on `'\n'`,
/// trailing `'\r'` stripped, no final empty line for a trailing newline.
pub open spec fn spec_lines(s: Seq<char>) -> Seq<Seq<char>>
    decreases s.len(),
{
    if s.len() == 0 {
        Seq::empty()
    } else {
        seq![first_line(s)] + spec_lines(rest_after_line(s))
    }
}

/// The views of a vector of strings.
pub open spec fn views_of(v: Seq<String>) -> Seq<Seq<char>> {
    v.map_values(|s: String| s@)
}

pub proof fn lemma_views_push(v: Seq<String>, x: String)
    ensures
        views_of(v.push(x)) =~= views_of(v).push(x@),
{
}

/// Splits the text into its lines, verified against `spec_lines`.
pub fn split_lines(s: &str) -> (r: Vec<String>)
    ensures
        views_of(r@) =~= spec_lines(s@),
{
    let n: usize = s.unicode_len();
    let mut out: Vec<String> = Vec::new();
    let mut i: usize = 0;
    proof {
        assert(s@.skip(0) =~= s@);
        assert(views_of(out@) + spec_lines(s@) =~= spec_lines(s@));
    }
    while i < n
        invariant
            n == s@.len(),
            i <= n,
            spec_lines(s@) =~= views_of(out@) + spec_lines(s@.skip(i as int)),
        decreases n - i,
    {
        let ghost suffix = s@.skip(i as int);
        let mut j: usize = i;
        while j < n && s.get_char(j) != '\n'
            invariant
                n == s@.len(),
                i <= j <= n,
                forall|k: int| i <= k < j ==> s@[k] != '\n',
            decreases n - j,
        {
            j = j + 1;
        }
        proof {
            assert(suffix.len() == n - i);
            assert forall|k: int| 0 <= k < j - i implies suffix[k] != '\n' by {
                assert(suffix[k] == s@[i + k]);
            }
            if (j as int) - (i as int) < suffix.len() {
                assert(suffix[(j - i) as int] == s@[j as int]);
            }
            lemma_line_len_is(suffix, j - i);
        }
        // strip one trailing '\r' from the line
        let line_end: usize = if j > i && s.get_char(j - 1) == '\r' {
            j - 1
        } else {
            j
        };
        let line = s.substring_char(i, line_end).to_owned();
        proof {
            assert(suffix.take((j - i) as int) =~= s@.subrange(i as int, j as int));
            if j > i && s@[j as int - 1] == '\r' {
                assert(suffix.take((j - i) as int).drop_last() =~= s@.subrange(
                    i as int,
                    j as int - 1,
                ));
            }
            assert(line@ =~= first_line(suffix));
        }
        let next: usize = if j >= n {
            n
        } else {
            j + 1
        };
        proof {
            if j >= n {
                assert(line_len(suffix) >= suffix.len());
                assert(rest_after_line(suffix) =~= s@.skip(n as int));
            } else {
                assert(line_len(suffix) < suffix.len());
                assert(suffix.skip((j - i + 1) as int) =~= s@.skip((j + 1) as int));
            }
            let ghost out0 = out@;
            lemma_views_push(out0, line);
            assert(views_of(out0.push(line)) + spec_lines(s@.skip(next as int)) =~= views_of(out0)
                + (seq![line@] + spec_lines(s@.skip(next as int))));
            assert(spec_lines(suffix) == seq![first_line(suffix)] + spec_lines(
                rest_after_line(suffix),
            ));
        }
        out.push(line);
        i = next;
        proof {
            assert(spec_lines(s@) =~= views_of(out@) + spec_lines(s@.skip(i as int)));
        }
    }
    proof {
        assert(spec_lines(s@.skip(n as int)) =~= Seq::<Seq<char>>::empty());
        assert(views_of(out@) + Seq::<Seq<char>>::empty() =~= views_of(out@));
    }
    out
}

/// Length of the leading whitespace-free token.
pub open spec fn token_len(s: Seq<char>) -> nat
    decreases s.len(),
{
    if s.len() == 0 || is_space_c(s[0]) {
        0
    } else {
        (1 + token_len(s.drop_first())) as nat
    }
}

pub proof fn lemma_token_len_le(s: Seq<char>)
    ensures
        token_len(s) <= s.len(),
    decreases s.len(),
{
    if s.len() > 0 && !is_space_c(s[0]) {
        lemma_token_len_le(s.drop_first());
    }
}

pub proof fn lemma_token_len_is(s: Seq<char>, i: int)
    requires
        0 <= i <= s.len(),
        forall|j: int| 0 <= j < i ==> !is_space_c(s[j]),
        i < s.len() ==> is_space_c(s[i]),
    ensures
        token_len(s) == i,
    decreases s.len(),
{
    if s.len() > 0 && !is_space_c(s[0]) {
        assert(i >= 1);
        lemma_token_len_is(s.drop_first(), i - 1);
    }
}

/// The whitespace-separated tokens of the text, as `str::split_whitespace`
/// yields them.
pub open spec fn spec_tokens(s: Seq<char>) -> Seq<Seq<char>>
    decreases s.len(),
{
    if s.len() == 0 {
        Seq::empty()
    } else if is_space_c(s[0]) {
        spec_tokens(s.drop_first())
    } else if token_len(s) >= s.len() {
        seq![s]
    } else {
        seq![s.take(token_len(s) as int)] + spec_tokens(s.skip(token_len(s) as int))
    }
}

/// Splits the text into whitespace-separated tokens.
pub fn split_tokens(s: &str) -> (r: Vec<String>)
    ensures
        views_of(r@) =~= spec_tokens(s@),
{
    let n: usize = s.unicode_len();
    let mut out: Vec<String> = Vec::new();
    let mut i: usize = 0;
    proof {
        assert(s@.skip(0) =~= s@);
        assert(views_of(out@) + spec_tokens(s@) =~= spec_tokens(s@));
    }
    while i < n
        invariant
            n == s@.len(),
            i <= n,
            spec_tokens(s@) =~= views_of(out@) + spec_tokens(s@.skip(i as int)),
        decreases n - i,
    {
        let ghost suffix = s@.skip(i as int);
        if is_space_char(s.get_char(i)) {
            proof {
                assert(suffix[0] == s@[i as int]);
                assert(suffix.drop_first() =~= s@.skip(i as int + 1));
            }
            i = i + 1;
        } else {
            let start = i;
            let mut j: usize = i;
            while j < n && !is_space_char(s.get_char(j))
                invariant
                    n == s@.len(),
                    i <= j <= n,
                    forall|k: int| i <= k < j ==> !is_space_c(s@[k]),
                decreases n - j,
            {
                j = j + 1;
            }
            proof {
                assert(suffix.len() == n - i);
                assert forall|k: int| 0 <= k < j - i implies !is_space_c(suffix[k]) by {
                    assert(suffix[k] == s@[i + k]);
                }
                if (j as int) - (i as int) < suffix.len() {
                    assert(suffix[(j - i) as int] == s@[j as int]);
                }
                lemma_token_len_is(suffix, j - i);
            }
            let tok = s.substring_char(start, j).to_owned();
            proof {
                assert(suffix.take((j - i) as int) =~= s@.subrange(i as int, j as int));
                assert(tok@ =~= suffix.take((j - i) as int));
                let ghost out0 = out@;
                lemma_views_push(out0, tok);
                if j >= n {
                    assert(token_len(suffix) >= suffix.len());
                    assert(suffix =~= tok@);
                    assert(spec_tokens(suffix) =~= seq![tok@]);
                    assert(spec_tokens(s@.skip(n as int)) =~= Seq::<Seq<char>>::empty());
                    assert(views_of(out0.push(tok)) + spec_tokens(s@.skip(n as int)) =~= views_of(
                        out0,
                    ) + spec_tokens(suffix));
                } else {
                    assert(token_len(suffix) < suffix.len());
                    assert(suffix.skip((j - i) as int) =~= s@.skip(j as int));
                    assert(spec_tokens(suffix) =~= seq![tok@] + spec_tokens(s@.skip(j as int)));
                    assert(views_of(out0.push(tok)) + spec_tokens(s@.skip(j as int)) =~= views_of(
                        out0,
                    ) + spec_tokens(suffix));
                }
            }
            out.push(tok);
            i = j;
            proof {
                assert(spec_tokens(s@) =~= views_of(out@) + spec_tokens(s@.skip(i as int)));
            }
        }
    }
    proof {
        assert(spec_tokens(s@.skip(n as int)) =~= Seq::<Seq<char>>::empty());
        assert(views_of(out@) + Seq::<Seq<char>>::empty() =~= views_of(out@));
    }
    out
}

/// The tokens joined by single spaces, as `[&str]::join(" ")` builds it.
pub open spec fn join_space(ts: Seq<Seq<char>>) -> Seq<char>
    decreases ts.len(),
{
    if ts.len() == 0 {
        Seq::empty()
    } else if ts.len() == 1 {
        ts[0]
    } else {
        ts[0] + seq![' '] + join_space(ts.drop_first())
    }
}

/// Joins the strings from index `k` on with single spaces.
pub fn join_space_from(v: &Vec<String>, k: usize) -> (r: String)
    requires
        k <= v@.len(),
    ensures
        r@ == join_space(views_of(v@).skip(k as int)),
{
    let n: usize = v.len();
    let mut out = String::new();
    if k >= n {
        proof {
            assert(views_of(v@).skip(k as int) =~= Seq::<Seq<char>>::empty());
            assert(out@ =~= join_space(views_of(v@).skip(k as int)));
        }
        return out;
    }
    let mut i: usize = k;
    while i < n
        invariant
            n == v@.len(),
            k <= i <= n,
            i > k ==> out@ + join_space_sep(views_of(v@).skip(i as int)) == join_space(
                views_of(v@).skip(k as int),
            ),
            i == k ==> out@ =~= Seq::<char>::empty(),
        decreases n - i,
    {
        let ghost out0 = out@;
        if i > k {
            out.append(" ");
        }
        out.append(v[i].as_str());
        proof {
            reveal_strlit(" ");
            assert(" "@ =~= seq![' ']);
            let ghost rest_old = views_of(v@).skip(i as int);
            let ghost rest_new = views_of(v@).skip(i as int + 1);
            assert(rest_old.len() > 0);
            assert(rest_old[0] == v@[i as int]@);
            assert(rest_old.drop_first() =~= rest_new);
            if i == k {
                assert(out@ =~= v@[i as int]@);
                assert(join_space(views_of(v@).skip(k as int)) == join_space(rest_old));
                lemma_join_space_sep(rest_old);
                assert(out@ + join_space_sep(rest_new) =~= join_space(rest_old));
            } else {
                assert(out@ =~= out0 + seq![' '] + v@[i as int]@);
                assert(join_space_sep(rest_old) == seq![' '] + rest_old[0] + join_space_sep(
                    rest_new,
                ));
                assert(out@ + join_space_sep(rest_new) =~= out0 + join_space_sep(rest_old));
            }
        }
        i = i + 1;
    }
    proof {
        assert(join_space_sep(views_of(v@).skip(n as int)) =~= Seq::<char>::empty());
        assert(out@ =~= join_space(views_of(v@).skip(k as int)));
    }
    out
}

/// The remainder of a join: a leading space before every token.
pub open spec fn join_space_sep(ts: Seq<Seq<char>>) -> Seq<char>
    decreases ts.len(),
{
    if ts.len() == 0 {
        Seq::empty()
    } else {
        seq![' '] + ts[0] + join_space_sep(ts.drop_first())
    }
}

pub proof fn lemma_join_space_sep(ts: Seq<Seq<char>>)
    requires
        ts.len() > 0,
    ensures
        join_space(ts) == ts[0] + join_space_sep(ts.drop_first()),
    decreases ts.len(),
{
    if ts.len() == 1 {
        assert(join_space_sep(ts.drop_first()) =~= Seq::<char>::empty());
        assert(ts[0] + Seq::<char>::empty() =~= ts[0]);
    } else {
        assert(join_space(ts) == ts[0] + seq![' '] + join_space(ts.drop_first()));
        lemma_join_space_sep(ts.drop_first());
        assert(ts[0] + seq![' '] + (ts.drop_first()[0] + join_space_sep(
            ts.drop_first().drop_first(),
        )) =~= ts[0] + (seq![' '] + ts.drop_first()[0] + join_space_sep(
            ts.drop_first().drop_first(),
        )));
    }
}

/// The strings joined by a separator, as `[&str]::join(sep)` builds it.
pub open spec fn join_with(ts: Seq<Seq<char>>, sep: Seq<char>) -> Seq<char>
    decreases ts.len(),
{
    if ts.len() == 0 {
        Seq::empty()
    } else if ts.len() == 1 {
        ts[0]
    } else {
        ts[0] + sep + join_with(ts.drop_first(), sep)
    }
}

/// The remainder of a join: a leading separator before every string.
pub open spec fn join_with_sep(ts: Seq<Seq<char>>, sep: Seq<char>) -> Seq<char>
    decreases ts.len(),
{
    if ts.len() == 0 {
        Seq::empty()
    } else {
        sep + ts[0] + join_with_sep(ts.drop_first(), sep)
    }
}

pub proof fn lemma_join_with_sep(ts: Seq<Seq<char>>, sep: Seq<char>)
    requires
        ts.len() > 0,
    ensures
        join_with(ts, sep) == ts[0] + join_with_sep(ts.drop_first(), sep),
    decreases ts.len(),
{
    if ts.len() == 1 {
        assert(join_with_sep(ts.drop_first(), sep) =~= Seq::<char>::empty());
        assert(ts[0] + Seq::<char>::empty() =~= ts[0]);
    } else {
        lemma_join_with_sep(ts.drop_first(), sep);
        assert(ts[0] + sep + (ts.drop_first()[0] + join_with_sep(
            ts.drop_first().drop_first(),
            sep,
        )) =~= ts[0] + (sep + ts.drop_first()[0] + join_with_sep(ts.drop_first().drop_first(), sep)));
    }
}

/// Joins the strings with the given separator.
pub fn join_strings(v: &Vec<String>, sep: &str) -> (r: String)
    ensures
        r@ == join_with(views_of(v@), sep@),
{
    let n: usize = v.len();
    let mut out = String::new();
    if n == 0 {
        proof {
            assert(out@ =~= join_with(views_of(v@), sep@));
        }
        return out;
    }
    let mut i: usize = 0;
    while i < n
        invariant
            n == v@.len(),
            n > 0,
            i <= n,
            i > 0 ==> out@ + join_with_sep(views_of(v@).skip(i as int), sep@) == join_with(
                views_of(v@),
                sep@,
            ),
            i == 0 ==> out@ =~= Seq::<char>::empty(),
        decreases n - i,
    {
        let ghost out0 = out@;
        if i > 0 {
            out.append(sep);
        }
        out.append(v[i].as_str());
        proof {
            let ghost rest_old = views_of(v@).skip(i as int);
            let ghost rest_new = views_of(v@).skip(i as int + 1);
            assert(rest_old.len() > 0);
            assert(rest_old[0] == v@[i as int]@);
            assert(rest_old.drop_first() =~= rest_new);
            if i == 0 {
                assert(out@ =~= v@[i as int]@);
                assert(rest_old =~= views_of(v@));
                lemma_join_with_sep(views_of(v@), sep@);
                assert(out@ + join_with_sep(rest_new, sep@) =~= join_with(views_of(v@), sep@));
            } else {
                assert(out@ =~= out0 + sep@ + v@[i as int]@);
                assert(join_with_sep(rest_old, sep@) == sep@ + rest_old[0] + join_with_sep(
                    rest_new,
                    sep@,
                ));
                assert(out@ + join_with_sep(rest_new, sep@) =~= out0 + join_with_sep(
                    rest_old,
                    sep@,
                ));
            }
        }
        i = i + 1;
    }
    proof {
        assert(join_with_sep(views_of(v@).skip(n as int), sep@) =~= Seq::<char>::empty());
        assert(out@ + Seq::<char>::empty() =~= out@);
    }
    out
}

/// Whether the character is an ASCII decimal digit.
pub open spec fn is_digit_c(c: char) -> bool {
    48 <= c as u32 && c as u32 <= 57
}

pub open spec fn digit_val(c: char) -> int {
    c as u32 - 48
}

/// The value of a digit string, most significant first.
pub open spec fn dec_value(s: Seq<char>) -> int
    decreases s.len(),
{
    if s.len() == 0 {
        0
    } else {
        dec_value(s.drop_last()) * 10 + digit_val(s.last())
    }
}

/// The body of a decimal numeral: an optional leading `'+'` is dropped.
pub open spec fn numeral_body(s: Seq<char>) -> Seq<char> {
    if s.len() > 0 && s[0] == '+' {
        s.drop_first()
    } else {
        s
    }
}

/// Whether `str::parse::<usize>` accepts the string: an optional leading
/// `'+'`, then one or more ASCII digits, with a value that fits.
pub open spec fn is_usize_numeral(s: Seq<char>) -> bool {
    let b = numeral_body(s);
    b.len() > 0 && (forall|i: int| 0 <= i < b.len() ==> is_digit_c(b[i])) && dec_value(b)
        <= usize::MAX
}

/// Parses a decimal `usize` as `str::parse::<usize>` does.
pub fn parse_usize(s: &str) -> (r: Option<usize>)
    ensures
        match r {
            Some(v) => is_usize_numeral(s@) && v == dec_value(numeral_body(s@)),
            None => !is_usize_numeral(s@),
        },
{
    let n: usize = s.unicode_len();
    let start: usize = if n > 0 && s.get_char(0) == '+' {
        1
    } else {
        0
    };
    let ghost b = numeral_body(s@);
    proof {
        assert(b =~= s@.skip(start as int));
    }
    if start >= n {
        return None;
    }
    let mut acc: usize = 0;
    let mut i: usize = start;
    while i < n
        invariant
            n == s@.len(),
            start <= i <= n,
            start <= 1,
            b == numeral_body(s@),
            b == s@.skip(start as int),
            start == 1 <==> (s@.len() > 0 && s@[0] == '+'),
            b.len() == n - start,
            forall|j: int| 0 <= j < i - start ==> is_digit_c(b[j]),
            acc == dec_value(b.take((i - start) as int)),
        decreases n - i,
    {
        let c = s.get_char(i);
        let cv = c as u32;
        if cv < 48 || cv > 57 {
            proof {
                assert(b[(i - start) as int] == s@[i as int]);
            }
            return None;
        }
        let d: usize = (cv - 48) as usize;
        let acc10 = match acc.checked_mul(10) {
            Some(x) => x,
            None => {
                proof {
                    assert(digit_val(b[(i - start) as int]) == s@[i as int] as u32 - 48);
                    lemma_dec_value_grows(b, (i - start) as int);
                    if start == 1 {
                        assert(seq!['+'] + b =~= s@);
                    } else {
                        assert(b =~= s@);
                    }
                }
                return None;
            },
        };
        let next = match acc10.checked_add(d) {
            Some(x) => x,
            None => {
                proof {
                    assert(digit_val(b[(i - start) as int]) == s@[i as int] as u32 - 48);
                    lemma_dec_value_grows(b, (i - start) as int);
                    if start == 1 {
                        assert(seq!['+'] + b =~= s@);
                    } else {
                        assert(b =~= s@);
                    }
                }
                return None;
            },
        };
        proof {
            assert(b[(i - start) as int] == s@[i as int]);
            assert(b.take((i - start + 1) as int).drop_last() =~= b.take((i - start) as int));
            assert(b.take((i - start + 1) as int).last() == b[(i - start) as int]);
        }
        acc = next;
        i = i + 1;
    }
    proof {
        assert(b.take((n - start) as int) =~= b);
    }
    Some(acc)
}

/// If a prefix of digits already exceeds `usize::MAX` when extended by the
/// digit at `i`, the whole numeral's value does too.
pub proof fn lemma_dec_value_grows(b: Seq<char>, i: int)
    requires
        0 <= i < b.len(),
        forall|j: int| 0 <= j < i ==> is_digit_c(b[j]),
        is_digit_c(b[i]),
        dec_value(b.take(i)) * 10 + digit_val(b[i]) > usize::MAX,
    ensures
        !is_usize_numeral(seq!['+'] + b) && !is_usize_numeral(b),
{
    if forall|j: int| 0 <= j < b.len() ==> is_digit_c(b[j]) {
        lemma_dec_value_monotonic(b, i + 1);
        assert(b.take(i + 1).drop_last() =~= b.take(i));
        assert(b.take(i + 1).last() == b[i]);
        assert(dec_value(b.take(i + 1)) > usize::MAX);
        assert(dec_value(b) > usize::MAX);
        assert((seq!['+'] + b).len() > 0 && (seq!['+'] + b)[0] == '+');
        assert(numeral_body(seq!['+'] + b) =~= b);
    } else {
        let ghost w = choose|j: int| 0 <= j < b.len() && !is_digit_c(b[j]);
        assert(numeral_body(seq!['+'] + b) =~= b);
    }
}

/// A digit string's value only grows as digits are appended.
pub proof fn lemma_dec_value_monotonic(b: Seq<char>, i: int)
    requires
        0 <= i <= b.len(),
        forall|j: int| 0 <= j < b.len() ==> is_digit_c(b[j]),
    ensures
        dec_value(b) >= dec_value(b.take(i)),
        dec_value(b) >= 0,
    decreases b.len() - i,
{
    if i == b.len() {
        assert(b.take(i) =~= b);
        lemma_dec_value_nonneg(b);
    } else {
        lemma_dec_value_monotonic(b, i + 1);
        assert(b.take(i + 1).drop_last() =~= b.take(i));
        assert(b.take(i + 1).last() == b[i]);
        lemma_dec_value_nonneg(b.take(i));
        assert(dec_value(b.take(i + 1)) == dec_value(b.take(i)) * 10 + digit_val(b[i]));
        assert(dec_value(b.take(i)) * 10 >= dec_value(b.take(i))) by (nonlinear_arith)
            requires
                dec_value(b.take(i)) >= 0,
        ;
    }
}

pub proof fn lemma_dec_value_nonneg(b: Seq<char>)
    requires
        forall|j: int| 0 <= j < b.len() ==> is_digit_c(b[j]),
    ensures
        dec_value(b) >= 0,
    decreases b.len(),
{
    if b.len() > 0 {
        assert(is_digit_c(b.last()));
        lemma_dec_value_nonneg(b.drop_last());
        assert(forall|j: int| 0 <= j < b.drop_last().len() ==> is_digit_c(b.drop_last()[j]));
        assert(dec_value(b.drop_last()) * 10 >= 0) by (nonlinear_arith)
            requires
                dec_value(b.drop_last()) >= 0,
        ;
    }
}

/// The code point of the character, lower-cased if it is an ASCII capital.
pub open spec fn lower_code(c: char) -> u32 {
    let n = c as u32;
    if 65 <= n && n <= 90 {
        (n + 32) as u32
    } else {
        n
    }
}

/// ASCII-case-insensitive string equality, as `str::eq_ignore_ascii_case`.
pub open spec fn spec_eq_ignore_ascii_case(a: Seq<char>, b: Seq<char>) -> bool {
    a.len() == b.len() && (forall|i: int| 0 <= i < a.len() ==> lower_code(a[i]) == lower_code(b[i]))
}

pub fn eq_ignore_ascii_case(a: &str, b: &str) -> (r: bool)
    ensures
        r == spec_eq_ignore_ascii_case(a@, b@),
{
    let an: usize = a.unicode_len();
    let bn: usize = b.unicode_len();
    if an != bn {
        return false;
    }
    let mut i: usize = 0;
    while i < an
        invariant
            an == a@.len(),
            an == b@.len(),
            i <= an,
            forall|j: int| 0 <= j < i ==> lower_code(a@[j]) == lower_code(b@[j]),
        decreases an - i,
    {
        let ca = a.get_char(i) as u32;
        let cb = b.get_char(i) as u32;
        let la = if 65 <= ca && ca <= 90 {
            ca + 32
        } else {
            ca
        };
        let lb = if 65 <= cb && cb <= 90 {
            cb + 32
        } else {
            cb
        };
        if la != lb {
            return false;
        }
        i = i + 1;
    }
    true
}

} // verus!
