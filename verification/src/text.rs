//! Verified text utilities: substring search over `&str` values.
//!
//! The scraped documents arrive as plain strings; every extraction rule in
//! this crate is phrased over `Seq<char>` views, so the exec helpers here
//! carry exact contracts in terms of those views.

use vstd::prelude::*;

verus! {

/// `sub` occurs in `s` starting at offset `i`.
pub open spec fn matches_at(s: Seq<char>, sub: Seq<char>, i: int) -> bool {
    &&& 0 <= i
    &&& i + sub.len() <= s.len()
    &&& s.subrange(i, i + sub.len() as int) == sub
}

/// `sub` occurs somewhere in `s`.
pub open spec fn contains_seq(s: Seq<char>, sub: Seq<char>) -> bool {
    exists|i: int| matches_at(s, sub, i)
}

/// Compares `sub` against the slice of `s` that starts at offset `i`.
fn matches_at_exec(s: &str, sub: &str, i: usize) -> (r: bool)
    requires
        i + sub@.len() <= s@.len(),
        i + sub@.len() <= usize::MAX,
    ensures
        r == matches_at(s@, sub@, i as int),
{
    let n = sub.unicode_len();
    let mut j: usize = 0;
    while j < n
        invariant
            n == sub@.len(),
            i + n <= s@.len(),
            i + n <= usize::MAX,
            j <= n,
            forall|k: int| 0 <= k < j ==> s@[i + k] == sub@[k],
        decreases n - j,
    {
        if s.get_char(i + j) != sub.get_char(j) {
            assert(s@.subrange(i as int, i + n as int) != sub@) by {
                assert(s@.subrange(i as int, i + n as int)[j as int] == s@[i + j]);
            }
            return false;
        }
        j = j + 1;
    }
    assert(s@.subrange(i as int, i + n as int) =~= sub@);
    true
}

/// Lexicographic order on character sequences; ISO dates (`YYYY-MM-DD`)
/// compare chronologically under it.
pub open spec fn seq_le(a: Seq<char>, b: Seq<char>) -> bool
    decreases a.len(),
{
    if a.len() == 0 {
        true
    } else if b.len() == 0 {
        false
    } else if (a[0] as u32) < (b[0] as u32) {
        true
    } else if (a[0] as u32) > (b[0] as u32) {
        false
    } else {
        seq_le(a.drop_first(), b.drop_first())
    }
}

/// Lexicographic order is total.
pub proof fn lemma_seq_le_total(a: Seq<char>, b: Seq<char>)
    ensures
        seq_le(a, b) || seq_le(b, a),
    decreases a.len(),
{
    if a.len() == 0 || b.len() == 0 {
    } else if (a[0] as u32) == (b[0] as u32) {
        lemma_seq_le_total(a.drop_first(), b.drop_first());
    }
}

/// Lexicographic order is transitive.
pub proof fn lemma_seq_le_trans(a: Seq<char>, b: Seq<char>, c: Seq<char>)
    requires
        seq_le(a, b),
        seq_le(b, c),
    ensures
        seq_le(a, c),
    decreases a.len(),
{
    if a.len() == 0 {
    } else {
        assert(b.len() > 0);
        assert(c.len() > 0);
        if (a[0] as u32) == (b[0] as u32) && (b[0] as u32) == (c[0] as u32) {
            lemma_seq_le_trans(a.drop_first(), b.drop_first(), c.drop_first());
        }
    }
}

/// Lexicographic comparison of two string slices.
pub fn str_le(a: &str, b: &str) -> (r: bool)
    ensures
        r == seq_le(a@, b@),
{
    let n = a.unicode_len();
    let m = b.unicode_len();
    let mut i: usize = 0;
    proof {
        assert(a@.skip(0) =~= a@);
        assert(b@.skip(0) =~= b@);
    }
    loop
        invariant
            n == a@.len(),
            m == b@.len(),
            i <= n,
            i <= m,
            seq_le(a@, b@) == seq_le(a@.skip(i as int), b@.skip(i as int)),
        decreases n - i,
    {
        if i == n {
            assert(a@.skip(i as int).len() == 0);
            return true;
        }
        if i == m {
            assert(b@.skip(i as int).len() == 0 && a@.skip(i as int).len() > 0);
            return false;
        }
        let ca = a.get_char(i) as u32;
        let cb = b.get_char(i) as u32;
        proof {
            assert(a@.skip(i as int)[0] == a@[i as int]);
            assert(b@.skip(i as int)[0] == b@[i as int]);
        }
        if ca < cb {
            return true;
        }
        if ca > cb {
            return false;
        }
        proof {
            assert(a@.skip(i as int).drop_first() =~= a@.skip(i + 1));
            assert(b@.skip(i as int).drop_first() =~= b@.skip(i + 1));
        }
        i = i + 1;
    }
}

/// Character-for-character equality of two string slices.
pub fn str_eq(a: &str, b: &str) -> (r: bool)
    ensures
        r == (a@ == b@),
{
    let n = a.unicode_len();
    let m = b.unicode_len();
    if n != m {
        return false;
    }
    let mut i: usize = 0;
    while i < n
        invariant
            n == a@.len(),
            n == b@.len(),
            i <= n,
            forall|k: int| 0 <= k < i ==> a@[k] == b@[k],
        decreases n - i,
    {
        if a.get_char(i) != b.get_char(i) {
            return false;
        }
        i = i + 1;
    }
    assert(a@ =~= b@);
    true
}

/// Substring search: does `sub` occur anywhere in `s`?
pub fn str_contains(s: &str, sub: &str) -> (r: bool)
    ensures
        r == contains_seq(s@, sub@),
{
    let n = s.unicode_len();
    let m = sub.unicode_len();
    if m > n {
        assert(!contains_seq(s@, sub@)) by {
            assert(forall|i: int| !matches_at(s@, sub@, i));
        }
        return false;
    }
    if m == 0 {
        assert(matches_at(s@, sub@, 0)) by {
            assert(s@.subrange(0, 0) =~= sub@);
        }
        return true;
    }
    let mut i: usize = 0;
    while i <= n - m
        invariant
            n == s@.len(),
            m == sub@.len(),
            1 <= m <= n,
            i <= n - m + 1,
            forall|k: int| 0 <= k < i ==> !matches_at(s@, sub@, k),
        decreases n - i,
    {
        if matches_at_exec(s, sub, i) {
            assert(contains_seq(s@, sub@));
            return true;
        }
        i = i + 1;
    }
    assert(forall|k: int| !matches_at(s@, sub@, k)) by {
        assert(forall|k: int| k > n - m ==> !matches_at(s@, sub@, k));
    }
    false
}

/// The whitespace characters stripped at the edges of scraped cell text.
pub open spec fn is_space(c: char) -> bool {
    c == ' ' || c == '\t' || c == '\n' || c == '\r'
}

/// `s` without leading whitespace.
pub open spec fn trim_start_seq(s: Seq<char>) -> Seq<char>
    decreases s.len(),
{
    if s.len() > 0 && is_space(s[0]) {
        trim_start_seq(s.drop_first())
    } else {
        s
    }
}

/// `s` without trailing whitespace.
pub open spec fn trim_end_seq(s: Seq<char>) -> Seq<char>
    decreases s.len(),
{
    if s.len() > 0 && is_space(s.last()) {
        trim_end_seq(s.drop_last())
    } else {
        s
    }
}

/// `s` without leading and trailing whitespace.
pub open spec fn trim_seq(s: Seq<char>) -> Seq<char> {
    trim_end_seq(trim_start_seq(s))
}

fn is_space_exec(c: char) -> (r: bool)
    ensures
        r == is_space(c),
{
    c == ' ' || c == '\t' || c == '\n' || c == '\r'
}

/// Strips leading and trailing whitespace.
pub fn str_trim(s: &str) -> (r: String)
    ensures
        r@ == trim_seq(s@),
{
    let n = s.unicode_len();
    let mut i: usize = 0;
    proof {
        assert(s@.skip(0) =~= s@);
    }
    while i < n && is_space_exec(s.get_char(i))
        invariant
            n == s@.len(),
            i <= n,
            trim_start_seq(s@) == trim_start_seq(s@.skip(i as int)),
        decreases n - i,
    {
        proof {
            assert(s@.skip(i as int)[0] == s@[i as int]);
            assert(s@.skip(i as int).drop_first() =~= s@.skip(i + 1));
        }
        i = i + 1;
    }
    proof {
        if i < n {
            assert(s@.skip(i as int)[0] == s@[i as int]);
        }
        assert(trim_start_seq(s@) == s@.skip(i as int));
    }
    let mut j: usize = n;
    proof {
        assert(s@.skip(i as int) =~= s@.subrange(i as int, n as int));
    }
    while j > i && is_space_exec(s.get_char(j - 1))
        invariant
            n == s@.len(),
            i <= j <= n,
            trim_end_seq(s@.subrange(i as int, n as int)) == trim_end_seq(
                s@.subrange(i as int, j as int),
            ),
        decreases j,
    {
        proof {
            assert(s@.subrange(i as int, j as int).last() == s@[j - 1]);
            assert(s@.subrange(i as int, j as int).drop_last() =~= s@.subrange(
                i as int,
                j - 1,
            ));
        }
        j = j - 1;
    }
    proof {
        if j > i {
            assert(s@.subrange(i as int, j as int).last() == s@[j - 1]);
        }
        assert(trim_end_seq(s@.subrange(i as int, j as int)) == s@.subrange(i as int, j as int));
    }
    s.substring_char(i, j).to_owned()
}

/// The character's code point, with an ASCII capital letter folded to its
/// small form. (Scraped marker terms are ASCII; non-ASCII case pairs are
/// deliberately not folded.)
pub open spec fn lower_code(c: char) -> int {
    if 65 <= c as u32 <= 90 {
        c as u32 + 32
    } else {
        c as u32 as int
    }
}

/// `pat` occurs at offset `i` of `s` up to ASCII case.
pub open spec fn ci_matches_at(s: Seq<char>, pat: Seq<char>, i: int) -> bool {
    &&& 0 <= i
    &&& i + pat.len() <= s.len()
    &&& forall|j: int| 0 <= j < pat.len() ==> lower_code(s[i + j]) == lower_code(#[trigger] pat[j])
}

/// `pat` occurs somewhere in `s` up to ASCII case.
pub open spec fn contains_ci(s: Seq<char>, pat: Seq<char>) -> bool {
    exists|i: int| ci_matches_at(s, pat, i)
}

fn lower_code_exec(c: char) -> (r: u32)
    ensures
        r == lower_code(c),
{
    let u = c as u32;
    if 65 <= u && u <= 90 {
        u + 32
    } else {
        u
    }
}

/// Substring search up to ASCII case.
pub fn str_contains_ci(s: &str, pat: &str) -> (r: bool)
    ensures
        r == contains_ci(s@, pat@),
{
    let n = s.unicode_len();
    let m = pat.unicode_len();
    if m > n {
        assert(forall|i: int| !ci_matches_at(s@, pat@, i));
        return false;
    }
    if m == 0 {
        assert(ci_matches_at(s@, pat@, 0));
        return true;
    }
    let mut i: usize = 0;
    while i <= n - m
        invariant
            n == s@.len(),
            m == pat@.len(),
            1 <= m <= n,
            i <= n - m + 1,
            forall|k: int| 0 <= k < i ==> !ci_matches_at(s@, pat@, k),
        decreases n - i,
    {
        let mut j: usize = 0;
        let mut hit = true;
        while j < m
            invariant
                n == s@.len(),
                m == pat@.len(),
                i + m <= n,
                j <= m,
                hit ==> forall|k: int| 0 <= k < j ==> lower_code(s@[i + k]) == lower_code(pat@[k]),
                !hit ==> !ci_matches_at(s@, pat@, i as int),
            decreases m - j,
        {
            if lower_code_exec(s.get_char(i + j)) != lower_code_exec(pat.get_char(j)) {
                hit = false;
                proof {
                    assert(!ci_matches_at(s@, pat@, i as int));
                }
                j = m;
            } else {
                j = j + 1;
            }
        }
        if hit {
            assert(ci_matches_at(s@, pat@, i as int));
            return true;
        }
        i = i + 1;
    }
    assert(forall|k: int| k > n - m ==> !ci_matches_at(s@, pat@, k));
    false
}

/// `s` begins with `prefix`.
pub open spec fn starts_with_seq(s: Seq<char>, prefix: Seq<char>) -> bool {
    matches_at(s, prefix, 0)
}

/// Prefix test.
pub fn str_starts_with(s: &str, prefix: &str) -> (r: bool)
    ensures
        r == starts_with_seq(s@, prefix@),
{
    let n = s.unicode_len();
    let m = prefix.unicode_len();
    if m > n {
        return false;
    }
    matches_at_exec(s, prefix, 0)
}

/// `s` ends with the character `c`.
pub open spec fn ends_with_char(s: Seq<char>, c: char) -> bool {
    s.len() > 0 && s.last() == c
}

/// Suffix-character test.
pub fn str_ends_with_char(s: &str, c: char) -> (r: bool)
    ensures
        r == ends_with_char(s@, c),
{
    let n = s.unicode_len();
    if n == 0 {
        return false;
    }
    s.get_char(n - 1) == c
}

/// Some character of `s` satisfies "is an ASCII digit".
pub open spec fn is_ascii_digit(c: char) -> bool {
    48 <= c as u32 <= 57
}

pub open spec fn has_digit(s: Seq<char>) -> bool {
    exists|i: int| 0 <= i < s.len() && is_ascii_digit(#[trigger] s[i])
}

/// Does any character of `s` count as an ASCII digit?
pub fn str_has_digit(s: &str) -> (r: bool)
    ensures
        r == has_digit(s@),
{
    let n = s.unicode_len();
    let mut i: usize = 0;
    while i < n
        invariant
            n == s@.len(),
            i <= n,
            forall|k: int| 0 <= k < i ==> !is_ascii_digit(#[trigger] s@[k]),
        decreases n - i,
    {
        let u = s.get_char(i) as u32;
        if 48 <= u && u <= 57 {
            assert(is_ascii_digit(s@[i as int]));
            return true;
        }
        i = i + 1;
    }
    false
}

/// Some character of `s` is exactly `c`.
pub open spec fn contains_char(s: Seq<char>, c: char) -> bool {
    exists|i: int| 0 <= i < s.len() && s[i] == c
}

/// Single-character search.
pub fn str_contains_char(s: &str, c: char) -> (r: bool)
    ensures
        r == contains_char(s@, c),
{
    let n = s.unicode_len();
    let mut i: usize = 0;
    while i < n
        invariant
            n == s@.len(),
            i <= n,
            forall|k: int| 0 <= k < i ==> s@[k] != c,
        decreases n - i,
    {
        if s.get_char(i) == c {
            return true;
        }
        i = i + 1;
    }
    false
}

/// `s` with every non-overlapping occurrence of `pat` removed, scanning
/// left to right (the replace-by-empty of the extraction rules).
pub open spec fn remove_all_seq(s: Seq<char>, pat: Seq<char>) -> Seq<char>
    decreases s.len(),
{
    if pat.len() == 0 || s.len() == 0 {
        s
    } else if matches_at(s, pat, 0) {
        remove_all_seq(s.skip(pat.len() as int), pat)
    } else {
        seq![s[0]] + remove_all_seq(s.drop_first(), pat)
    }
}

/// Removes every occurrence of `pat`, scanning left to right.
pub fn str_remove_all(s: &str, pat: &str) -> (r: String)
    requires
        pat@.len() > 0,
    ensures
        r@ == remove_all_seq(s@, pat@),
{
    let n = s.unicode_len();
    let m = pat.unicode_len();
    let mut out = String::new();
    let mut i: usize = 0;
    proof {
        assert(s@.skip(0) =~= s@);
        assert(out@ + remove_all_seq(s@, pat@) =~= remove_all_seq(s@, pat@));
    }
    while i < n
        invariant
            n == s@.len(),
            m == pat@.len(),
            m > 0,
            i <= n,
            out@ + remove_all_seq(s@.skip(i as int), pat@) == remove_all_seq(s@, pat@),
        decreases n - i,
    {
        let ghost rest = s@.skip(i as int);
        if n - i >= m && matches_at_exec(s, pat, i) {
            proof {
                assert(rest.subrange(0, m as int) =~= s@.subrange(i as int, i + m as int));
                assert(matches_at(rest, pat@, 0));
                assert(rest.skip(m as int) =~= s@.skip(i + m));
            }
            i = i + m;
        } else {
            proof {
                if n - i >= m {
                    assert(rest.subrange(0, m as int) =~= s@.subrange(i as int, i + m as int));
                    assert(!matches_at(rest, pat@, 0));
                } else {
                    assert(!matches_at(rest, pat@, 0));
                }
                assert(rest[0] == s@[i as int]);
                assert(rest.drop_first() =~= s@.skip(i + 1));
            }
            let ghost out0 = out@;
            let piece = s.substring_char(i, i + 1);
            out.append(piece);
            proof {
                assert(piece@ =~= seq![s@[i as int]]);
                assert(out@ + remove_all_seq(s@.skip(i + 1), pat@) =~= out0 + (seq![s@[i as int]]
                    + remove_all_seq(s@.skip(i + 1), pat@)));
            }
            i = i + 1;
        }
    }
    proof {
        assert(s@.skip(n as int) =~= Seq::<char>::empty());
        assert(out@ + remove_all_seq(s@.skip(n as int), pat@) =~= out@);
    }
    out
}

/// `s` with every HTML comment delimiter removed, exactly as a left-to-right
/// scan over the two markers sees them: at each position the opener is tried
/// first, then the closer, else one character is kept.
/// The comment opener, as a character sequence.
pub open spec fn opener_seq() -> Seq<char> {
    seq!['<', '!', '-', '-']
}

/// The comment closer, as a character sequence.
pub open spec fn closer_seq() -> Seq<char> {
    seq!['-', '-', '>']
}

pub open spec fn strip_markers_seq(s: Seq<char>) -> Seq<char>
    decreases s.len(),
{
    if s.len() == 0 {
        s
    } else if s.len() >= 4 && matches_at(s, opener_seq(), 0) {
        strip_markers_seq(s.skip(4))
    } else if s.len() >= 3 && matches_at(s, closer_seq(), 0) {
        strip_markers_seq(s.skip(3))
    } else {
        seq![s[0]] + strip_markers_seq(s.drop_first())
    }
}

/// Removes the HTML comment delimiters `<!--` and `-->`, so that tables a
/// source serves inside comments become visible to the table parser.
pub fn strip_comment_markers(s: &str) -> (r: String)
    ensures
        r@ == strip_markers_seq(s@),
{
    let n = s.unicode_len();
    let opener = "<!--";
    let closer = "-->";
    proof {
        reveal_strlit("<!--");
        reveal_strlit("-->");
        assert(opener@ =~= opener_seq());
        assert(closer@ =~= closer_seq());
    }
    let mut out = String::new();
    let mut i: usize = 0;
    proof {
        assert(s@.skip(0) =~= s@);
        assert(out@ + strip_markers_seq(s@) =~= strip_markers_seq(s@));
    }
    while i < n
        invariant
            n == s@.len(),
            opener@ == opener_seq(),
            closer@ == closer_seq(),
            i <= n,
            out@ + strip_markers_seq(s@.skip(i as int)) == strip_markers_seq(s@),
        decreases n - i,
    {
        let ghost rest = s@.skip(i as int);
        if n - i >= 4 && matches_at_exec(s, opener, i) {
            proof {
                assert(rest.subrange(0, 4) =~= s@.subrange(i as int, i + 4));
                assert(matches_at(rest, opener_seq(), 0));
                assert(rest.skip(4) =~= s@.skip(i + 4));
            }
            i = i + 4;
        } else if n - i >= 3 && matches_at_exec(s, closer, i) {
            proof {
                if i + 4 <= n {
                    assert(rest.subrange(0, 4) =~= s@.subrange(i as int, i + 4));
                }
                assert(!matches_at(rest, opener_seq(), 0));
                assert(rest.subrange(0, 3) =~= s@.subrange(i as int, i + 3));
                assert(matches_at(rest, closer_seq(), 0));
                assert(rest.skip(3) =~= s@.skip(i + 3));
            }
            i = i + 3;
        } else {
            proof {
                if i + 4 <= n {
                    assert(rest.subrange(0, 4) =~= s@.subrange(i as int, i + 4));
                }
                if i + 3 <= n {
                    assert(rest.subrange(0, 3) =~= s@.subrange(i as int, i + 3));
                }
                assert(!matches_at(rest, opener_seq(), 0));
                assert(!matches_at(rest, closer_seq(), 0));
                assert(rest[0] == s@[i as int]);
                assert(rest.drop_first() =~= s@.skip(i + 1));
            }
            let ghost out0 = out@;
            let piece = s.substring_char(i, i + 1);
            out.append(piece);
            proof {
                assert(piece@ =~= seq![s@[i as int]]);
                assert(out@ + strip_markers_seq(s@.skip(i + 1)) =~= out0 + (seq![s@[i as int]]
                    + strip_markers_seq(s@.skip(i + 1))));
            }
            i = i + 1;
        }
    }
    proof {
        assert(s@.skip(n as int) =~= Seq::<char>::empty());
        assert(out@ + strip_markers_seq(s@.skip(n as int)) =~= out@);
    }
    out
}

// ---------------------------------------------------------------------------
// Numbers in cell text
// ---------------------------------------------------------------------------

pub open spec fn digit_val(c: char) -> int {
    c as u32 - 48
}

/// Non-empty and made of ASCII digits only.
pub open spec fn all_digits(s: Seq<char>) -> bool {
    s.len() > 0 && (forall|i: int| 0 <= i < s.len() ==> is_ascii_digit(#[trigger] s[i]))
}

/// Made of ASCII digits only (possibly empty).
pub open spec fn digits_only(s: Seq<char>) -> bool {
    forall|i: int| 0 <= i < s.len() ==> is_ascii_digit(#[trigger] s[i])
}

/// The number a digit string denotes.
pub open spec fn digits_value(s: Seq<char>) -> int
    decreases s.len(),
{
    if s.len() == 0 {
        0int
    } else {
        digits_value(s.drop_last()) * 10 + digit_val(s.last())
    }
}

/// The digits after an optional leading plus sign.
pub open spec fn unsigned_body(s: Seq<char>) -> Seq<char> {
    if s.len() > 0 && s[0] == '+' {
        s.drop_first()
    } else {
        s
    }
}

/// What `str::parse::<u32>` accepts and returns: an optional plus sign, one
/// or more digits, value within range.
pub open spec fn spec_parse_u32(s: Seq<char>) -> Option<u32> {
    if all_digits(unsigned_body(s)) && digits_value(unsigned_body(s)) <= u32::MAX {
        Some(digits_value(unsigned_body(s)) as u32)
    } else {
        None
    }
}

pub proof fn lemma_digits_value_nonneg(s: Seq<char>)
    requires
        digits_only(s),
    ensures
        digits_value(s) >= 0,
    decreases s.len(),
{
    if s.len() > 0 {
        lemma_digits_value_nonneg(s.drop_last());
    }
}

/// A digit string is worth at least any of its prefixes.
pub proof fn lemma_digits_prefix_le(s: Seq<char>, k: int)
    requires
        digits_only(s),
        0 <= k <= s.len(),
    ensures
        digits_value(s.take(k)) <= digits_value(s),
    decreases s.len() - k,
{
    if k < s.len() {
        lemma_digits_prefix_le(s, k + 1);
        assert(s.take(k + 1).drop_last() =~= s.take(k));
        assert(digits_only(s.take(k)));
        lemma_digits_value_nonneg(s.take(k));
    } else {
        assert(s.take(k) =~= s);
    }
}

/// Exactly `str::parse::<u32>`: `Some` on an optional plus sign followed by
/// digits denoting a value in range, `None` otherwise.
pub fn parse_u32_strict(s: &str) -> (r: Option<u32>)
    ensures
        r == spec_parse_u32(s@),
{
    let n = s.unicode_len();
    let mut i: usize = 0;
    if n > 0 && s.get_char(0) == '+' {
        i = 1;
    }
    let ghost b = unsigned_body(s@);
    proof {
        assert(b =~= s@.skip(i as int));
    }
    if i == n {
        assert(!all_digits(b));
        return None;
    }
    let mut acc: u64 = 0;
    let mut j: usize = i;
    while j < n
        invariant
            n == s@.len(),
            i <= j <= n,
            i < n,
            b == unsigned_body(s@),
            b == s@.skip(i as int),
            b.len() == n - i,
            forall|l: int| 0 <= l < j - i ==> is_ascii_digit(#[trigger] b[l]),
            acc == digits_value(b.take(j - i)),
            acc <= u32::MAX,
        decreases n - j,
    {
        let u = s.get_char(j) as u32;
        proof {
            assert(b[j - i] == s@[j as int]);
        }
        if !(48 <= u && u <= 57) {
            assert(!is_ascii_digit(b[j - i]));
            assert(!all_digits(b));
            return None;
        }
        proof {
            assert(b.take(j - i + 1).drop_last() =~= b.take(j - i));
            assert(b.take(j - i + 1).last() == b[j - i]);
        }
        acc = acc * 10 + (u - 48) as u64;
        if acc > 0xffff_ffff {
            proof {
                if all_digits(b) {
                    lemma_digits_prefix_le(b, j - i + 1);
                }
            }
            return None;
        }
        j = j + 1;
    }
    proof {
        assert(b.take(n - i) =~= b);
        assert(all_digits(b));
    }
    Some(acc as u32)
}

/// The lenient numeric cell parse: thousands separators stripped, edges
/// trimmed, and anything unparsable worth zero.
pub open spec fn spec_cell_u32(s: Seq<char>) -> u32 {
    match spec_parse_u32(trim_seq(remove_all_seq(s, seq![',']))) {
        Some(v) => v,
        None => 0,
    }
}

/// Parses an integer cell leniently: separators stripped, zero on failure.
pub fn parse_cell_u32(s: &str) -> (r: u32)
    ensures
        r == spec_cell_u32(s@),
{
    let comma = ",";
    proof {
        reveal_strlit(",");
        assert(comma@ =~= seq![',']);
    }
    let cleaned = str_remove_all(s, comma);
    let trimmed = str_trim(cleaned.as_str());
    match parse_u32_strict(trimmed.as_str()) {
        Some(v) => v,
        None => 0,
    }
}

/// The first three fractional digits as thousandths (further digits are cut
/// off toward zero).
pub open spec fn frac_milli(fr: Seq<char>) -> int {
    (if fr.len() >= 1 {
        digit_val(fr[0]) * 100
    } else {
        0int
    }) + (if fr.len() >= 2 {
        digit_val(fr[1]) * 10
    } else {
        0int
    }) + (if fr.len() >= 3 {
        digit_val(fr[2])
    } else {
        0int
    })
}

/// The largest integer part a decimal cell may carry; anything beyond the
/// plausible range of a match statistic is treated as unparsable, which
/// also keeps sums of thousandths far from 64-bit overflow.
pub const MILLI_INT_CAP: u64 = 4_294_967_295;

/// A decimal cell value in thousandths: an optional plus sign, an integer
/// part, an optional point and fractional part, with at least one digit;
/// anything else — and anything too large — is worth zero.
pub open spec fn spec_parse_milli(s: Seq<char>) -> u64 {
    let b = unsigned_body(s);
    let d = first_char_at(b, '.');
    let ip = if d < 0 {
        b
    } else {
        b.take(d)
    };
    let fp = if d < 0 {
        Seq::<char>::empty()
    } else {
        b.skip(d + 1)
    };
    if ip.len() + fp.len() == 0 {
        0u64
    } else if !digits_only(ip) || !digits_only(fp) {
        0u64
    } else if digits_value(ip) > MILLI_INT_CAP {
        0u64
    } else {
        (digits_value(ip) * 1000 + frac_milli(fp)) as u64
    }
}

/// The lenient decimal cell parse, in thousandths.
pub open spec fn spec_cell_milli(s: Seq<char>) -> u64 {
    spec_parse_milli(trim_seq(remove_all_seq(s, seq![','])))
}

/// Are the characters of `s` between `from` and `to` all digits?
fn all_digits_range(s: &str, from: usize, to: usize) -> (r: bool)
    requires
        from <= to <= s@.len(),
    ensures
        r == digits_only(s@.subrange(from as int, to as int)),
{
    let ghost seg = s@.subrange(from as int, to as int);
    let mut l: usize = from;
    while l < to
        invariant
            from <= l <= to <= s@.len(),
            seg == s@.subrange(from as int, to as int),
            forall|q: int| 0 <= q < l - from ==> is_ascii_digit(#[trigger] seg[q]),
        decreases to - l,
    {
        let u = s.get_char(l) as u32;
        proof {
            assert(seg[l - from] == s@[l as int]);
        }
        if !(48 <= u && u <= 57) {
            assert(!is_ascii_digit(seg[l - from]));
            return false;
        }
        l = l + 1;
    }
    true
}

/// Parses a decimal string into thousandths; zero on anything malformed.
#[verifier::rlimit(30)]
pub fn parse_decimal_milli(s: &str) -> (r: u64)
    ensures
        r == spec_parse_milli(s@),
{
    let n = s.unicode_len();
    let mut i: usize = 0;
    if n > 0 && s.get_char(0) == '+' {
        i = 1;
    }
    let ghost b = unsigned_body(s@);
    proof {
        assert(b =~= s@.skip(i as int));
    }
    // Position of the decimal point, `n` when there is none.
    let mut dpos: usize = i;
    while dpos < n && s.get_char(dpos) != '.'
        invariant
            n == s@.len(),
            i <= dpos <= n,
            forall|l: int| i <= l < dpos ==> s@[l] != '.',
        decreases n - dpos,
    {
        dpos = dpos + 1;
    }
    proof {
        assert(forall|l: int| 0 <= l < b.len() ==> b[l] == s@[i + l]);
        if dpos < n {
            lemma_first_char_is(b, '.', dpos - i);
        } else {
            lemma_first_char_none(b, '.');
        }
    }
    let ghost ip = if dpos < n {
        b.take(dpos - i)
    } else {
        b
    };
    let ghost fp = if dpos < n {
        b.skip(dpos - i + 1)
    } else {
        Seq::<char>::empty()
    };
    proof {
        assert(ip =~= s@.subrange(i as int, dpos as int));
        if dpos < n {
            assert(fp =~= s@.skip(dpos + 1));
        }
    }
    if dpos == n && i == n {
        // no digits at all
        return 0;
    }
    if dpos < n && i == dpos && dpos + 1 == n {
        // a bare decimal point
        return 0;
    }
    // Integer part.
    let mut acc: u64 = 0;
    let mut k: usize = i;
    while k < dpos
        invariant
            n == s@.len(),
            i <= k <= dpos <= n,
            b == unsigned_body(s@),
            ip == s@.subrange(i as int, dpos as int),
            fp == (if dpos < n {
                s@.skip(dpos + 1)
            } else {
                Seq::<char>::empty()
            }),
            first_char_at(b, '.') == (if dpos < n {
                dpos - i
            } else {
                -1int
            }),
            ip == (if first_char_at(b, '.') < 0 {
                b
            } else {
                b.take(first_char_at(b, '.'))
            }),
            fp == (if first_char_at(b, '.') < 0 {
                Seq::<char>::empty()
            } else {
                b.skip(first_char_at(b, '.') + 1)
            }),
            forall|l: int| 0 <= l < k - i ==> is_ascii_digit(#[trigger] ip[l]),
            acc == digits_value(ip.take(k - i)),
            acc <= MILLI_INT_CAP,
        decreases dpos - k,
    {
        let u = s.get_char(k) as u32;
        proof {
            assert(ip[k - i] == s@[k as int]);
        }
        if !(48 <= u && u <= 57) {
            assert(!is_ascii_digit(ip[k - i]));
            assert(!digits_only(ip));
            return 0;
        }
        proof {
            assert(ip.take(k - i + 1).drop_last() =~= ip.take(k - i));
            assert(ip.take(k - i + 1).last() == ip[k - i]);
        }
        acc = acc * 10 + (u - 48) as u64;
        if acc > MILLI_INT_CAP {
            proof {
                if digits_only(ip) {
                    lemma_digits_prefix_le(ip, k - i + 1);
                }
            }
            return 0;
        }
        k = k + 1;
    }
    proof {
        assert(ip.take(dpos - i) =~= ip);
        assert(digits_only(ip));
    }
    // Fractional part: all digits, first three kept.
    let mut frac: u64 = 0;
    if dpos < n {
        proof {
            assert(fp =~= s@.subrange(dpos + 1, n as int));
        }
        if !all_digits_range(s, dpos + 1, n) {
            assert(!digits_only(fp));
            return 0;
        }
        assert(digits_only(fp));
        if n - dpos > 1 {
            let c1 = s.get_char(dpos + 1) as u32;
            proof {
                assert(fp[0] == s@[dpos + 1]);
                assert(is_ascii_digit(fp[0]));
            }
            frac = frac + 100 * ((c1 - 48) as u64);
        }
        if n - dpos > 2 {
            let c2 = s.get_char(dpos + 2) as u32;
            proof {
                assert(fp[1] == s@[dpos + 2]);
                assert(is_ascii_digit(fp[1]));
            }
            frac = frac + 10 * ((c2 - 48) as u64);
        }
        if n - dpos > 3 {
            let c3 = s.get_char(dpos + 3) as u32;
            proof {
                assert(fp[2] == s@[dpos + 3]);
                assert(is_ascii_digit(fp[2]));
            }
            frac = frac + ((c3 - 48) as u64);
        }
        proof {
            assert(fp.len() == n - dpos - 1);
            assert(frac == frac_milli(fp));
        }
    }
    proof {
        assert(digits_value(ip) >= 0) by {
            lemma_digits_value_nonneg(ip);
        }
        assert(ip.len() + fp.len() > 0);
        assert(0 <= frac_milli(fp) <= 999);
    }
    acc * 1000 + frac
}

/// Parses a decimal cell leniently into thousandths.
pub fn parse_cell_milli(s: &str) -> (r: u64)
    ensures
        r == spec_cell_milli(s@),
{
    let comma = ",";
    proof {
        reveal_strlit(",");
        assert(comma@ =~= seq![',']);
    }
    let cleaned = str_remove_all(s, comma);
    let trimmed = str_trim(cleaned.as_str());
    parse_decimal_milli(trimmed.as_str())
}

// ---------------------------------------------------------------------------
// First occurrence of a character, and splitting
// ---------------------------------------------------------------------------

/// Index of the first occurrence of `c` in `s`, or -1.
pub open spec fn first_char_at(s: Seq<char>, c: char) -> int
    decreases s.len(),
{
    if s.len() == 0 {
        -1int
    } else if s[0] == c {
        0int
    } else {
        let r = first_char_at(s.drop_first(), c);
        if r < 0 {
            -1int
        } else {
            1 + r
        }
    }
}

pub proof fn lemma_first_char_range(s: Seq<char>, c: char)
    ensures
        -1 <= first_char_at(s, c),
        first_char_at(s, c) >= 0 ==> first_char_at(s, c) < s.len() && s[first_char_at(s, c)] == c,
    decreases s.len(),
{
    if s.len() > 0 && s[0] != c {
        lemma_first_char_range(s.drop_first(), c);
    }
}

pub proof fn lemma_first_char_is(s: Seq<char>, c: char, k: int)
    requires
        0 <= k < s.len(),
        s[k] == c,
        forall|l: int| 0 <= l < k ==> s[l] != c,
    ensures
        first_char_at(s, c) == k,
    decreases k,
{
    if k > 0 {
        lemma_first_char_is(s.drop_first(), c, k - 1);
    }
}

pub proof fn lemma_first_char_none(s: Seq<char>, c: char)
    requires
        forall|l: int| 0 <= l < s.len() ==> s[l] != c,
    ensures
        first_char_at(s, c) == -1,
    decreases s.len(),
{
    if s.len() > 0 {
        lemma_first_char_none(s.drop_first(), c);
    }
}

/// The segments of `s` between occurrences of `c`, empty segments kept —
/// the behaviour of `str::split` on a character pattern.
pub open spec fn split_seq(s: Seq<char>, c: char) -> Seq<Seq<char>>
    decreases s.len(),
    via split_seq_dec
{
    if first_char_at(s, c) < 0 {
        seq![s]
    } else {
        seq![s.take(first_char_at(s, c))] + split_seq(s.skip(first_char_at(s, c) + 1), c)
    }
}

#[via_fn]
proof fn split_seq_dec(s: Seq<char>, c: char) {
    lemma_first_char_range(s, c);
}

/// Splits on a separator character, keeping empty segments.
pub fn str_split_char(s: &str, c: char) -> (r: Vec<String>)
    ensures
        r.deep_view() == split_seq(s@, c),
{
    let n = s.unicode_len();
    let mut out: Vec<String> = Vec::new();
    let mut start: usize = 0;
    proof {
        assert(s@.skip(0) =~= s@);
        assert(out.deep_view() + split_seq(s@, c) =~= split_seq(s@, c));
    }
    loop
        invariant
            n == s@.len(),
            start <= n,
            out.deep_view() + split_seq(s@.skip(start as int), c) == split_seq(s@, c),
        decreases n + 1 - start,
    {
        let ghost rest = s@.skip(start as int);
        let mut j: usize = start;
        while j < n && s.get_char(j) != c
            invariant
                n == s@.len(),
                start <= j <= n,
                forall|l: int| start <= l < j ==> s@[l] != c,
            decreases n - j,
        {
            j = j + 1;
        }
        let ghost out0 = out.deep_view();
        let piece = s.substring_char(start, j).to_owned();
        if j < n {
            out.push(piece);
            proof {
                assert(rest[j - start] == s@[j as int]);
                assert(forall|l: int| 0 <= l < j - start ==> rest[l] == s@[start + l]);
                lemma_first_char_is(rest, c, j - start);
                assert(rest.take(j - start) =~= s@.subrange(start as int, j as int));
                assert(rest.skip(j - start + 1) =~= s@.skip(j + 1));
                assert(out.deep_view() =~= out0.push(s@.subrange(start as int, j as int)));
                assert(out.deep_view() + split_seq(s@.skip(j + 1), c) =~= out0 + (seq![
                    rest.take(j - start)] + split_seq(rest.skip(j - start + 1), c)));
            }
            start = j + 1;
        } else {
            out.push(piece);
            proof {
                assert(forall|l: int| 0 <= l < rest.len() ==> rest[l] == s@[start + l]);
                lemma_first_char_none(rest, c);
                assert(rest =~= s@.subrange(start as int, n as int));
                assert(out.deep_view() =~= out0.push(rest));
                assert(out.deep_view() =~= out0 + seq![rest]);
            }
            return out;
        }
    }
}

} // verus!
