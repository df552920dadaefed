//! Hierarchy derivation: the depth level and the parent abbreviation of a
//! department, read off the whitespace-separated tokens of its abbreviation.

use vstd::prelude::*;

use crate::text::{
    is_space, is_space_char, join_tokens, join_with_spaces, lemma_all_ws_no_tokens,
    lemma_token_len_run, lemma_tokens_drop_leading_ws, lemma_trim_end_run, lemma_trim_end_shape,
    lemma_trim_start_run, lemma_trim_start_shape, split_tokens, token_len, tokens_of, trim_spec,
    trim_start_spec, upper_char, upper_char_spec,
};

verus! {

/// The fixed abbreviation of the hierarchy's root organization.
pub open spec fn root_token() -> Seq<char> {
    "FSOFT"@
}

/// Returns the root organization's abbreviation.
pub fn root_org() -> (r: &'static str)
    ensures
        r@ == root_token(),
{
    "FSOFT"
}

/// `s`, ASCII upper-cased character by character.
pub open spec fn upper_seq(s: Seq<char>) -> Seq<char> {
    s.map_values(|c: char| upper_char_spec(c))
}

/// Whole-string, case-insensitive identity with the root token: the trimmed
/// abbreviation, upper-cased, equals the root abbreviation exactly.
pub open spec fn root_match(s: Seq<char>) -> bool {
    upper_seq(trim_spec(s)) == root_token()
}

/// Tests whether the trimmed abbreviation names the root organization,
/// ignoring case.
pub fn matches_root(s: &str) -> (r: bool)
    ensures
        r == root_match(s@),
{
    proof {
        reveal_strlit("FSOFT");
    }
    let n = s.unicode_len();
    let mut a: usize = 0;
    while a < n && is_space(s.get_char(a))
        invariant
            a <= n,
            n == s@.len(),
            forall|k: int| 0 <= k < a ==> is_space_char(s@[k]),
        decreases n - a,
    {
        a += 1;
    }
    proof {
        lemma_trim_start_run(s@, a as int);
    }
    if a == n {
        proof {
            assert(trim_spec(s@) =~= Seq::<char>::empty());
            assert(upper_seq(trim_spec(s@)).len() == 0);
        }
        return false;
    }
    let mut b: usize = n;
    while b > a && is_space(s.get_char(b - 1))
        invariant
            a <= b <= n,
            n == s@.len(),
            forall|k: int| b <= k < n ==> is_space_char(s@[k]),
        decreases b,
    {
        b -= 1;
    }
    proof {
        lemma_trim_end_run(s@.skip(a as int), b - a);
        assert(trim_spec(s@) =~= s@.subrange(a as int, b as int));
        assert(upper_seq(trim_spec(s@)).len() == b - a);
    }
    if b - a != 5 {
        return false;
    }
    let root: &str = "FSOFT";
    let mut k: usize = 0;
    while k < 5
        invariant
            k <= 5,
            n == s@.len(),
            a + 5 == b <= n,
            trim_spec(s@) == s@.subrange(a as int, b as int),
            root_token().len() == 5,
            root@ == root_token(),
            forall|j: int|
                0 <= j < k ==> upper_char_spec(s@[a + j]) == root_token()[j],
        decreases 5 - k,
    {
        let c = upper_char(s.get_char(a + k));
        if c != root.get_char(k) {
            proof {
                assert(upper_seq(trim_spec(s@))[k as int] != root_token()[k as int]);
            }
            return false;
        }
        k += 1;
    }
    proof {
        assert(upper_seq(trim_spec(s@)) =~= root_token());
    }
    true
}

/// An abbreviation naming the root organization consists of exactly one
/// token: the root token holds no whitespace, so a whole-string match
/// leaves whitespace only at the ends.
pub proof fn lemma_root_single_token(s: Seq<char>)
    requires
        root_match(s),
    ensures
        tokens_of(s).len() == 1,
{
    reveal_strlit("FSOFT");
    let d = lemma_trim_start_shape(s);
    let t = trim_start_spec(s);
    let b = lemma_trim_end_shape(t);
    let r = trim_spec(s);
    assert(upper_seq(r).len() == r.len());
    assert(b == 5);
    assert forall|k: int| 0 <= k < b implies !is_space_char(t[k]) by {
        assert(upper_seq(r)[k] == upper_char_spec(r[k]));
        assert(upper_char_spec(t[k]) == root_token()[k]);
        if is_space_char(t[k]) {
            assert(upper_char_spec(t[k]) == t[k]);
            assert(is_space_char(root_token()[k]));
        }
    }
    lemma_tokens_drop_leading_ws(s, d);
    assert(t.len() > 0 && !is_space_char(t[0]));
    lemma_token_len_run(t, b);
    lemma_all_ws_no_tokens(t.skip(b));
    assert(tokens_of(t) == seq![t.take(token_len(t) as int)] + tokens_of(t.skip(b)));
    assert(tokens_of(s).len() == 1);
}

/// The root organization sits at depth zero and has no parent, whatever
/// case or surrounding whitespace its abbreviation is written with.
pub proof fn lemma_root_level_and_parent(s: Seq<char>)
    requires
        root_match(s),
    ensures
        level_spec(s) == 0,
        parent_spec(s) == Seq::<char>::empty(),
{
    lemma_root_single_token(s);
}

/// Any abbreviation of exactly one token that does not name the root
/// organization sits one level below the root: its depth is 1 and its
/// parent is the root token.
pub proof fn lemma_single_token_child(s: Seq<char>)
    requires
        tokens_of(s).len() == 1,
        !root_match(s),
    ensures
        level_spec(s) == 1,
        parent_spec(s) == root_token(),
{
}

/// The hierarchy depth of a department abbreviation: zero for the root
/// organization, otherwise its number of whitespace-separated tokens.
pub open spec fn level_spec(s: Seq<char>) -> nat {
    if root_match(s) {
        0
    } else {
        tokens_of(s).len()
    }
}

/// Computes the hierarchy depth of a department abbreviation.
pub fn compute_level(dep: &str) -> (r: usize)
    ensures
        r as nat == level_spec(dep@),
{
    if matches_root(dep) {
        0
    } else {
        let toks = split_tokens(dep);
        toks.len()
    }
}

/// The parent abbreviation of a department: the root organization has none;
/// any other abbreviation of at most one token is a direct child of the
/// root; otherwise the tokens except the last, rejoined with single spaces.
pub open spec fn parent_spec(s: Seq<char>) -> Seq<char> {
    if tokens_of(s).len() <= 1 {
        if root_match(s) {
            Seq::<char>::empty()
        } else {
            root_token()
        }
    } else {
        join_tokens(tokens_of(s).drop_last())
    }
}

/// Computes the parent abbreviation of a department.
pub fn parent_from_abbr(abbr: &str) -> (r: String)
    ensures
        r@ == parent_spec(abbr@),
{
    let mut toks = split_tokens(abbr);
    if toks.len() <= 1 {
        if matches_root(abbr) {
            String::new()
        } else {
            String::from_str(root_org())
        }
    } else {
        let ghost before = toks.deep_view();
        let shorter = toks.len() - 1;
        toks.truncate(shorter);
        proof {
            assert(toks.deep_view() =~= before.drop_last());
        }
        join_with_spaces(&toks)
    }
}

} // verus!
