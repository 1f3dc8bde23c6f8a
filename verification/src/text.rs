//! Character-level helpers shared by the URI parser and path logic:
//! first-occurrence search in a character sequence, and the restricted
//! character class that URI sections must satisfy.

use vstd::prelude::*;

verus! {

/// Index of the first occurrence of `c` in `s` at or after `from`;
/// `s.len()` when there is none.
pub open spec fn find_from(s: Seq<char>, c: char, from: int) -> int
    decreases s.len() - from,
{
    if from < 0 || from >= s.len() {
        s.len() as int
    } else if s[from] == c {
        from
    } else {
        find_from(s, c, from + 1)
    }
}

/// What `find_from` returns: a position between `from` and the length,
/// holding `c` when in range, with no `c` in between.
pub proof fn lemma_find_from_props(s: Seq<char>, c: char, from: int)
    requires
        0 <= from <= s.len(),
    ensures
        from <= find_from(s, c, from) <= s.len(),
        find_from(s, c, from) < s.len() ==> s[find_from(s, c, from)] == c,
        forall|j: int| from <= j < find_from(s, c, from) ==> s[j] != c,
    decreases s.len() - from,
{
    if from < s.len() && s[from] != c {
        lemma_find_from_props(s, c, from + 1);
    }
}

/// A position `k` with no `c` before it (from `from` on) and `c` at it
/// (or `k` at the end) is exactly what `find_from` returns.
pub proof fn lemma_find_from_is(s: Seq<char>, c: char, from: int, k: int)
    requires
        0 <= from <= k <= s.len(),
        forall|j: int| from <= j < k ==> s[j] != c,
        k == s.len() || s[k] == c,
    ensures
        find_from(s, c, from) == k,
    decreases k - from,
{
    if from < k {
        lemma_find_from_is(s, c, from + 1, k);
    }
}

/// The characters a URI section (host, path, query, fragment) may hold:
/// ASCII alphanumerics and `. _ ~ ! $ & ' ( ) * + , ; = : \ / @ -`.
pub open spec fn allowed_char(c: char) -> bool {
    ('a' <= c && c <= 'z') || ('A' <= c && c <= 'Z') || ('0' <= c && c <= '9') || c == '.'
        || c == '_' || c == '~' || c == '!' || c == '$' || c == '&' || c == '\'' || c == '('
        || c == ')' || c == '*' || c == '+' || c == ',' || c == ';' || c == '=' || c == ':'
        || c == '\\' || c == '/' || c == '@' || c == '-'
}

/// A section is valid when every character of it is allowed.
pub open spec fn valid_section(s: Seq<char>) -> bool {
    forall|i: int| 0 <= i < s.len() ==> allowed_char(s[i])
}

/// Views of a sequence of owned strings.
pub open spec fn str_views(v: Seq<String>) -> Seq<Seq<char>> {
    v.map_values(|s: String| s@)
}

/// First occurrence of `c` in `s` at or after `from`, as executable code.
pub fn find_char_from(s: &str, c: char, from: usize) -> (k: usize)
    requires
        from <= s@.len(),
    ensures
        k == find_from(s@, c, from as int),
        from <= k <= s@.len(),
        k < s@.len() ==> s@[k as int] == c,
        forall|j: int| from <= j < k ==> s@[j] != c,
{
    let n = s.unicode_len();
    let mut i = from;
    while i < n
        invariant
            from <= i <= n,
            n == s@.len(),
            forall|j: int| from <= j < i ==> s@[j] != c,
        decreases n - i,
    {
        if s.get_char(i) == c {
            proof {
                lemma_find_from_is(s@, c, from as int, i as int);
            }
            return i;
        }
        i += 1;
    }
    proof {
        lemma_find_from_is(s@, c, from as int, n as int);
    }
    n
}

/// Does every character of `s` belong to the allowed section class?
pub fn check_section(s: &str) -> (r: bool)
    ensures
        r == valid_section(s@),
{
    let n = s.unicode_len();
    let mut i: usize = 0;
    while i < n
        invariant
            0 <= i <= n,
            n == s@.len(),
            forall|j: int| 0 <= j < i ==> allowed_char(s@[j]),
        decreases n - i,
    {
        let c = s.get_char(i);
        let ok = ('a' <= c && c <= 'z') || ('A' <= c && c <= 'Z') || ('0' <= c && c <= '9')
            || c == '.' || c == '_' || c == '~' || c == '!' || c == '$' || c == '&' || c == '\''
            || c == '(' || c == ')' || c == '*' || c == '+' || c == ',' || c == ';' || c == '='
            || c == ':' || c == '\\' || c == '/' || c == '@' || c == '-';
        if !ok {
            return false;
        }
        i += 1;
    }
    true
}

} // verus!
