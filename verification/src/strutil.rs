//! String predicates used throughout the index: prefix and substring tests,
//! case folding, and extraction of a path's final component.

use vstd::prelude::*;

verus! {

/// `p` is a prefix of `s`.
pub open spec fn spec_starts_with(s: Seq<char>, p: Seq<char>) -> bool {
    p.len() <= s.len() && s.subrange(0, p.len() as int) == p
}

/// `needle` occurs in `hay` as a contiguous run of characters.
pub open spec fn contains_seq(hay: Seq<char>, needle: Seq<char>) -> bool {
    exists|i: int|
        0 <= i && i + needle.len() <= hay.len() && #[trigger] hay.subrange(
            i,
            i + needle.len() as int,
        ) == needle
}

/// The result of Unicode lower-casing, which depends on the characters alone.
pub uninterp spec fn lower_of(s: Seq<char>) -> Seq<char>;

/// Relies on str::starts_with: true iff the argument is a prefix of the string.
#[verifier::external_body]
pub fn str_starts_with(s: &str, p: &str) -> (r: bool)
    ensures
        r == spec_starts_with(s@, p@),
{
    s.starts_with(p)
}

/// Relies on str::contains: true iff the needle occurs as a contiguous
/// substring (a valid UTF-8 needle in valid UTF-8 text always falls on
/// character boundaries, so byte containment and character containment agree).
#[verifier::external_body]
pub fn str_contains(hay: &str, needle: &str) -> (r: bool)
    ensures
        r == contains_seq(hay@, needle@),
{
    hay.contains(needle)
}

/// Relies on str::to_lowercase: the result depends on the characters alone,
/// and an empty string stays empty.
#[verifier::external_body]
pub fn lowercase(s: &str) -> (r: String)
    ensures
        r@ == lower_of(s@),
        s@.len() == 0 ==> r@.len() == 0,
{
    s.to_lowercase()
}

/// Whether a string is exactly the root directory `/`.
pub fn is_root_slash(s: &str) -> (r: bool)
    ensures
        r == (s@ == "/"@),
{
    proof {
        reveal_strlit("/");
    }
    let r = s.unicode_len() == 1 && s.get_char(0) == '/';
    proof {
        if r {
            assert(s@ =~= "/"@);
        }
    }
    r
}

/// The final component of a path: the characters after the last `/`,
/// or the whole string when it holds no `/`.
pub open spec fn last_component(s: Seq<char>) -> Seq<char>
    decreases s.len(),
{
    if s.len() == 0 {
        s
    } else if s.last() == '/' {
        Seq::empty()
    } else {
        last_component(s.drop_last()).push(s.last())
    }
}

proof fn lemma_last_component_after_slash(s: Seq<char>, j: int)
    requires
        0 <= j < s.len(),
        s[j] == '/',
        forall|k: int| j < k < s.len() ==> s[k] != '/',
    ensures
        last_component(s) == s.subrange(j + 1, s.len() as int),
    decreases s.len(),
{
    if j == s.len() - 1 {
        assert(last_component(s) =~= s.subrange(j + 1, s.len() as int));
    } else {
        let d = s.drop_last();
        assert(forall|k: int| j < k < d.len() ==> d[k] != '/');
        lemma_last_component_after_slash(d, j);
        assert(last_component(s) == last_component(d).push(s.last()));
        assert(d.subrange(j + 1, d.len() as int).push(s.last()) =~= s.subrange(
            j + 1,
            s.len() as int,
        ));
    }
}

proof fn lemma_last_component_no_slash(s: Seq<char>)
    requires
        forall|k: int| 0 <= k < s.len() ==> s[k] != '/',
    ensures
        last_component(s) == s,
    decreases s.len(),
{
    if s.len() == 0 {
    } else {
        lemma_last_component_no_slash(s.drop_last());
        assert(last_component(s.drop_last()).push(s.last()) =~= s);
    }
}

/// The final component of `path`, as a fresh string.
pub fn file_name_of(path: &str) -> (r: String)
    ensures
        r@ == last_component(path@),
{
    let n = path.unicode_len();
    let mut i = n;
    while i > 0
        invariant
            i <= n,
            n == path@.len(),
            forall|k: int| i <= k < n ==> path@[k] != '/',
        decreases i,
    {
        if path.get_char(i - 1) == '/' {
            let tail = path.substring_char(i, n);
            proof {
                lemma_last_component_after_slash(path@, i - 1);
            }
            return tail.to_owned();
        }
        i = i - 1;
    }
    proof {
        lemma_last_component_no_slash(path@);
    }
    path.to_owned()
}

} // verus!
