//! Character classification and whitespace-token machinery shared by the
//! hierarchy rules, the row mapper and the serializers.

use vstd::prelude::*;

verus! {

/// The characters treated as whitespace when normalizing cell text and
/// splitting abbreviations into tokens (the Unicode `White_Space` set).
pub open spec fn is_space_char(c: char) -> bool {
    let u = c as u32;
    u == 9 || u == 10 || u == 11 || u == 12 || u == 13 || u == 32 || u == 0x85 || u == 0xA0
        || u == 0x1680 || (0x2000 <= u && u <= 0x200A) || u == 0x2028 || u == 0x2029
        || u == 0x202F || u == 0x205F || u == 0x3000
}

/// Runtime test matching `is_space_char`.
pub fn is_space(c: char) -> (r: bool)
    ensures
        r == is_space_char(c),
{
    let u: u32 = c as u32;
    u == 9 || u == 10 || u == 11 || u == 12 || u == 13 || u == 32 || u == 0x85 || u == 0xA0
        || u == 0x1680 || (0x2000 <= u && u <= 0x200A) || u == 0x2028 || u == 0x2029
        || u == 0x202F || u == 0x205F || u == 0x3000
}

/// An ASCII decimal digit.
pub open spec fn is_digit_char(c: char) -> bool {
    48 <= c as u32 && c as u32 <= 57
}

/// Runtime test matching `is_digit_char`.
pub fn is_digit(c: char) -> (r: bool)
    ensures
        r == is_digit_char(c),
{
    let u: u32 = c as u32;
    48 <= u && u <= 57
}

/// ASCII upper-casing of a single character: `a`..`z` map to `A`..`Z`,
/// everything else is unchanged.
pub open spec fn upper_char_spec(c: char) -> char {
    if 97 <= c as u32 && c as u32 <= 122 {
        ((c as u32 - 32) as u8) as char
    } else {
        c
    }
}

/// Runtime upper-casing matching `upper_char_spec`.
pub fn upper_char(c: char) -> (r: char)
    ensures
        r == upper_char_spec(c),
{
    let u: u32 = c as u32;
    if 97 <= u && u <= 122 {
        ((u - 32) as u8) as char
    } else {
        c
    }
}

/// Length of the longest whitespace-free prefix of `s`.
pub open spec fn token_len(s: Seq<char>) -> nat
    decreases s.len(),
{
    if s.len() == 0 || is_space_char(s[0]) {
        0
    } else {
        1 + token_len(s.drop_first())
    }
}

pub proof fn lemma_token_len_bounds(s: Seq<char>)
    ensures
        token_len(s) <= s.len(),
        s.len() > 0 && !is_space_char(s[0]) ==> token_len(s) >= 1,
    decreases s.len(),
{
    if s.len() > 0 && !is_space_char(s[0]) {
        lemma_token_len_bounds(s.drop_first());
    }
}

/// The whitespace-separated tokens of `s`, in order.
pub open spec fn tokens_of(s: Seq<char>) -> Seq<Seq<char>>
    decreases s.len(),
    via tokens_of_decreases
{
    if s.len() == 0 {
        Seq::<Seq<char>>::empty()
    } else if is_space_char(s[0]) {
        tokens_of(s.drop_first())
    } else {
        seq![s.take(token_len(s) as int)] + tokens_of(s.skip(token_len(s) as int))
    }
}

#[via_fn]
proof fn tokens_of_decreases(s: Seq<char>) {
    lemma_token_len_bounds(s);
}

/// A run of non-whitespace characters ending at the string's end or at a
/// whitespace character is exactly the leading token of the suffix it starts.
pub proof fn lemma_token_len_run(s: Seq<char>, j: int)
    requires
        0 <= j <= s.len(),
        forall|k: int| 0 <= k < j ==> !is_space_char(s[k]),
        j == s.len() || is_space_char(s[j]),
    ensures
        token_len(s) == j,
    decreases j,
{
    if j == 0 {
    } else {
        lemma_token_len_run(s.drop_first(), j - 1);
    }
}

/// The tokens joined back together with single spaces.
pub open spec fn join_tokens(ts: Seq<Seq<char>>) -> Seq<char>
    decreases ts.len(),
{
    if ts.len() == 0 {
        Seq::<char>::empty()
    } else if ts.len() == 1 {
        ts[0]
    } else {
        join_tokens(ts.drop_last()) + seq![' '] + ts.last()
    }
}

/// Whitespace-normalization: the tokens of `s`, rejoined with single spaces
/// (so runs of whitespace collapse and the ends are trimmed).
pub open spec fn normalize_spec(s: Seq<char>) -> Seq<char> {
    join_tokens(tokens_of(s))
}

/// Splits `s` at whitespace into its maximal non-whitespace runs.
pub fn split_tokens(s: &str) -> (r: Vec<String>)
    ensures
        r.deep_view() == tokens_of(s@),
{
    let n = s.unicode_len();
    let mut toks: Vec<String> = Vec::new();
    let mut i: usize = 0;
    proof {
        assert(s@.skip(0) =~= s@);
        assert(toks.deep_view() =~= Seq::<Seq<char>>::empty());
        assert(toks.deep_view() + tokens_of(s@) =~= tokens_of(s@));
    }
    while i < n
        invariant
            i <= n,
            n == s@.len(),
            toks.deep_view() + tokens_of(s@.skip(i as int)) == tokens_of(s@),
        decreases n - i,
    {
        let c = s.get_char(i);
        if is_space(c) {
            proof {
                assert(s@.skip(i as int).drop_first() =~= s@.skip(i + 1));
                assert(toks.deep_view() + tokens_of(s@.skip(i + 1)) =~= tokens_of(s@));
            }
            i += 1;
        } else {
            let ghost start = i as int;
            let mut tok = String::new();
            while i < n && !is_space(s.get_char(i))
                invariant
                    0 <= start <= i <= n,
                    n == s@.len(),
                    tok@ =~= s@.subrange(start, i as int),
                    forall|k: int| start <= k < i ==> !is_space_char(s@[k]),
                decreases n - i,
            {
                let d = s.get_char(i);
                push_char(&mut tok, d);
                proof {
                    assert(tok@ =~= s@.subrange(start, i + 1));
                }
                i += 1;
            }
            proof {
                let suf = s@.skip(start);
                lemma_token_len_run(suf, i - start);
                assert(suf.take(token_len(suf) as int) =~= s@.subrange(start, i as int));
                assert(suf.skip(token_len(suf) as int) =~= s@.skip(i as int));
                assert(tokens_of(suf) == seq![tok@] + tokens_of(s@.skip(i as int)));
                assert((toks.deep_view() + seq![tok@]) + tokens_of(s@.skip(i as int))
                    =~= tokens_of(s@));
            }
            toks.push(tok);
            proof {
                assert(toks.deep_view().last() == tok@);
                assert(toks.deep_view() =~= toks.deep_view().drop_last() + seq![tok@]);
            }
        }
    }
    proof {
        assert(tokens_of(s@.skip(n as int)) =~= Seq::<Seq<char>>::empty());
        assert(toks.deep_view() =~= tokens_of(s@));
    }
    toks
}

/// Joins the given pieces with a single space between consecutive pieces.
pub fn join_with_spaces(ts: &Vec<String>) -> (r: String)
    ensures
        r@ == join_tokens(ts.deep_view()),
{
    let mut out = String::new();
    let mut i: usize = 0;
    while i < ts.len()
        invariant
            i <= ts.len(),
            out@ == join_tokens(ts.deep_view().take(i as int)),
        decreases ts.len() - i,
    {
        if i > 0 {
            out.append(" ");
        }
        let piece: &String = &ts[i];
        out.append(piece.as_str());
        proof {
            reveal_strlit(" ");
            let tsv = ts.deep_view();
            assert(tsv.take(i + 1).drop_last() =~= tsv.take(i as int));
            assert(tsv.take(i + 1).last() == tsv[i as int]);
            assert(" "@ =~= seq![' ']);
            if i == 0 {
                assert(out@ =~= join_tokens(tsv.take(1)));
            }
        }
        i += 1;
    }
    proof {
        assert(ts.deep_view().take(ts.len() as int) =~= ts.deep_view());
    }
    out
}

/// Whitespace-normalizes `s`: collapses every whitespace run to one space
/// and trims both ends.
pub fn normalize(s: &str) -> (r: String)
    ensures
        r@ == normalize_spec(s@),
{
    let toks = split_tokens(s);
    join_with_spaces(&toks)
}

/// Relies on `String::push`: appends one character to the end of the string.
#[verifier::external_body]
pub fn push_char(s: &mut String, c: char)
    ensures
        final(s)@ == old(s)@.push(c),
{
    s.push(c);
}

/// `s` with leading whitespace removed.
pub open spec fn trim_start_spec(s: Seq<char>) -> Seq<char>
    decreases s.len(),
{
    if s.len() > 0 && is_space_char(s[0]) {
        trim_start_spec(s.drop_first())
    } else {
        s
    }
}

/// `s` with trailing whitespace removed.
pub open spec fn trim_end_spec(s: Seq<char>) -> Seq<char>
    decreases s.len(),
{
    if s.len() > 0 && is_space_char(s.last()) {
        trim_end_spec(s.drop_last())
    } else {
        s
    }
}

/// `s` with whitespace removed from both ends.
pub open spec fn trim_spec(s: Seq<char>) -> Seq<char> {
    trim_end_spec(trim_start_spec(s))
}

pub proof fn lemma_trim_start_run(s: Seq<char>, a: int)
    requires
        0 <= a <= s.len(),
        forall|k: int| 0 <= k < a ==> is_space_char(s[k]),
        a == s.len() || !is_space_char(s[a]),
    ensures
        trim_start_spec(s) == s.skip(a),
    decreases a,
{
    if a == 0 {
        assert(s.skip(0) =~= s);
    } else {
        lemma_trim_start_run(s.drop_first(), a - 1);
        assert(s.drop_first().skip(a - 1) =~= s.skip(a));
    }
}

pub proof fn lemma_trim_end_run(s: Seq<char>, b: int)
    requires
        0 <= b <= s.len(),
        forall|k: int| b <= k < s.len() ==> is_space_char(s[k]),
        b == 0 || !is_space_char(s[b - 1]),
    ensures
        trim_end_spec(s) == s.take(b),
    decreases s.len(),
{
    if b == s.len() {
        assert(s.take(b) =~= s);
    } else {
        lemma_trim_end_run(s.drop_last(), b);
        assert(s.drop_last().take(b) =~= s.take(b));
    }
}

/// `s` with every comma removed.
pub open spec fn strip_commas_spec(s: Seq<char>) -> Seq<char>
    decreases s.len(),
{
    if s.len() == 0 {
        Seq::<char>::empty()
    } else if s.last() == ',' {
        strip_commas_spec(s.drop_last())
    } else {
        strip_commas_spec(s.drop_last()).push(s.last())
    }
}

/// Removes every comma from `s`.
pub fn strip_commas(s: &str) -> (r: String)
    ensures
        r@ == strip_commas_spec(s@),
{
    let n = s.unicode_len();
    let mut out = String::new();
    let mut i: usize = 0;
    proof {
        assert(s@.take(0) =~= Seq::<char>::empty());
    }
    while i < n
        invariant
            i <= n,
            n == s@.len(),
            out@ == strip_commas_spec(s@.take(i as int)),
        decreases n - i,
    {
        let c = s.get_char(i);
        if c != ',' {
            push_char(&mut out, c);
        }
        proof {
            assert(s@.take(i + 1).drop_last() =~= s@.take(i as int));
        }
        i += 1;
    }
    proof {
        assert(s@.take(n as int) =~= s@);
    }
    out
}

/// `s` with every whitespace character and every comma removed: the form a
/// cell takes when scanned as a numeric candidate.
pub open spec fn digit_candidate_spec(s: Seq<char>) -> Seq<char>
    decreases s.len(),
{
    if s.len() == 0 {
        Seq::<char>::empty()
    } else if is_space_char(s.last()) || s.last() == ',' {
        digit_candidate_spec(s.drop_last())
    } else {
        digit_candidate_spec(s.drop_last()).push(s.last())
    }
}

/// Removes all whitespace and commas from `s`.
pub fn digit_candidate(s: &str) -> (r: String)
    ensures
        r@ == digit_candidate_spec(s@),
{
    let n = s.unicode_len();
    let mut out = String::new();
    let mut i: usize = 0;
    proof {
        assert(s@.take(0) =~= Seq::<char>::empty());
    }
    while i < n
        invariant
            i <= n,
            n == s@.len(),
            out@ == digit_candidate_spec(s@.take(i as int)),
        decreases n - i,
    {
        let c = s.get_char(i);
        if !is_space(c) && c != ',' {
            push_char(&mut out, c);
        }
        proof {
            assert(s@.take(i + 1).drop_last() =~= s@.take(i as int));
        }
        i += 1;
    }
    proof {
        assert(s@.take(n as int) =~= s@);
    }
    out
}

/// Every character of `s` is an ASCII decimal digit.
pub open spec fn all_digits(s: Seq<char>) -> bool {
    forall|k: int| 0 <= k < s.len() ==> is_digit_char(s[k])
}

/// Runtime test matching `all_digits`.
pub fn check_all_digits(s: &str) -> (r: bool)
    ensures
        r == all_digits(s@),
{
    let n = s.unicode_len();
    let mut i: usize = 0;
    while i < n
        invariant
            i <= n,
            n == s@.len(),
            forall|k: int| 0 <= k < i ==> is_digit_char(s@[k]),
        decreases n - i,
    {
        if !is_digit(s.get_char(i)) {
            return false;
        }
        i += 1;
    }
    true
}

/// What leading whitespace trimming leaves is a suffix, and what it drops
/// is all whitespace.
pub proof fn lemma_trim_start_shape(s: Seq<char>) -> (d: int)
    ensures
        0 <= d <= s.len(),
        trim_start_spec(s) == s.skip(d),
        forall|k: int| 0 <= k < d ==> is_space_char(s[k]),
        d == s.len() || !is_space_char(s[d]),
    decreases s.len(),
{
    if s.len() > 0 && is_space_char(s[0]) {
        let inner = lemma_trim_start_shape(s.drop_first());
        assert(s.drop_first().skip(inner) =~= s.skip(inner + 1));
        assert forall|k: int| 0 <= k < inner + 1 implies is_space_char(s[k]) by {
            if k > 0 {
                assert(is_space_char(s.drop_first()[k - 1]));
            }
        }
        if inner + 1 < s.len() {
            assert(!is_space_char(s.drop_first()[inner]));
        }
        inner + 1
    } else {
        assert(s.skip(0) =~= s);
        0
    }
}

/// What trailing whitespace trimming leaves is a prefix, and what it drops
/// is all whitespace.
pub proof fn lemma_trim_end_shape(s: Seq<char>) -> (b: int)
    ensures
        0 <= b <= s.len(),
        trim_end_spec(s) == s.take(b),
        forall|k: int| b <= k < s.len() ==> is_space_char(s[k]),
        b == 0 || !is_space_char(s[b - 1]),
    decreases s.len(),
{
    if s.len() > 0 && is_space_char(s.last()) {
        let b = lemma_trim_end_shape(s.drop_last());
        assert(s.drop_last().take(b) =~= s.take(b));
        assert forall|k: int| b <= k < s.len() implies is_space_char(s[k]) by {
            if k < s.len() - 1 {
                assert(is_space_char(s.drop_last()[k]));
            }
        }
        if b > 0 {
            assert(!is_space_char(s.drop_last()[b - 1]));
        }
        b
    } else {
        assert(s.take(s.len() as int) =~= s);
        s.len() as int
    }
}

/// A string of whitespace alone has no tokens.
pub proof fn lemma_all_ws_no_tokens(s: Seq<char>)
    requires
        forall|k: int| 0 <= k < s.len() ==> is_space_char(s[k]),
    ensures
        tokens_of(s).len() == 0,
    decreases s.len(),
{
    if s.len() > 0 {
        lemma_all_ws_no_tokens(s.drop_first());
    }
}

/// Leading whitespace contributes no token.
pub proof fn lemma_tokens_drop_leading_ws(s: Seq<char>, d: int)
    requires
        0 <= d <= s.len(),
        forall|k: int| 0 <= k < d ==> is_space_char(s[k]),
    ensures
        tokens_of(s) == tokens_of(s.skip(d)),
    decreases d,
{
    if d > 0 {
        lemma_tokens_drop_leading_ws(s.drop_first(), d - 1);
        assert(s.drop_first().skip(d - 1) =~= s.skip(d));
    } else {
        assert(s.skip(0) =~= s);
    }
}

pub proof fn lemma_strip_commas_len(s: Seq<char>)
    ensures
        strip_commas_spec(s).len() <= s.len(),
    decreases s.len(),
{
    if s.len() > 0 {
        lemma_strip_commas_len(s.drop_last());
    }
}

/// Every token of a string is non-empty.
pub proof fn lemma_tokens_all_nonempty(s: Seq<char>)
    ensures
        forall|j: int| 0 <= j < tokens_of(s).len() ==> tokens_of(s)[j].len() > 0,
    decreases s.len(),
{
    if s.len() == 0 {
    } else if is_space_char(s[0]) {
        lemma_tokens_all_nonempty(s.drop_first());
        assert(tokens_of(s) == tokens_of(s.drop_first()));
        assert forall|j: int| 0 <= j < tokens_of(s).len() implies tokens_of(s)[j].len() > 0 by {
            assert(tokens_of(s)[j] == tokens_of(s.drop_first())[j]);
        }
    } else {
        lemma_token_len_bounds(s);
        lemma_tokens_all_nonempty(s.skip(token_len(s) as int));
        let rest = tokens_of(s.skip(token_len(s) as int));
        assert forall|j: int| 0 <= j < tokens_of(s).len() implies tokens_of(s)[j].len() > 0 by {
            if j == 0 {
                assert(tokens_of(s)[0] == s.take(token_len(s) as int));
            } else {
                assert(tokens_of(s)[j] == rest[j - 1]);
            }
        }
    }
}

/// A string with a non-whitespace character has at least one token.
pub proof fn lemma_tokens_exist(s: Seq<char>, w: int)
    requires
        0 <= w < s.len(),
        !is_space_char(s[w]),
    ensures
        tokens_of(s).len() > 0,
    decreases s.len(),
{
    if is_space_char(s[0]) {
        lemma_tokens_exist(s.drop_first(), w - 1);
    }
}

/// A string with a non-whitespace character normalizes to a non-empty
/// string.
pub proof fn lemma_normalize_nonempty(s: Seq<char>, w: int)
    requires
        0 <= w < s.len(),
        !is_space_char(s[w]),
    ensures
        normalize_spec(s).len() > 0,
{
    lemma_tokens_exist(s, w);
    lemma_tokens_all_nonempty(s);
    let ts = tokens_of(s);
    if ts.len() == 1 {
        assert(join_tokens(ts) == ts[0]);
    }
}

/// A non-empty numeric candidate comes from a cell with at least one
/// non-whitespace character.
pub proof fn lemma_digit_candidate_has_char(s: Seq<char>) -> (w: int)
    requires
        digit_candidate_spec(s).len() > 0,
    ensures
        0 <= w < s.len(),
        !is_space_char(s[w]),
    decreases s.len(),
{
    if is_space_char(s.last()) || s.last() == ',' {
        if s.last() == ',' {
            s.len() - 1
        } else {
            lemma_digit_candidate_has_char(s.drop_last())
        }
    } else {
        s.len() - 1
    }
}

/// The character for one decimal digit value.
pub open spec fn digit_of(d: nat) -> char {
    if d == 0 {
        '0'
    } else if d == 1 {
        '1'
    } else if d == 2 {
        '2'
    } else if d == 3 {
        '3'
    } else if d == 4 {
        '4'
    } else if d == 5 {
        '5'
    } else if d == 6 {
        '6'
    } else if d == 7 {
        '7'
    } else if d == 8 {
        '8'
    } else {
        '9'
    }
}

/// The value of one ASCII digit character (0 for anything else).
pub open spec fn digit_val(c: char) -> nat {
    if is_digit_char(c) {
        (c as u32 - 48) as nat
    } else {
        0
    }
}

/// The decimal rendering of `n`, without sign or leading zeros.
pub open spec fn dec_str(n: nat) -> Seq<char>
    decreases n,
{
    if n < 10 {
        seq![digit_of(n)]
    } else {
        dec_str(n / 10).push(digit_of(n % 10))
    }
}

/// The numeric value of a sequence of ASCII digit characters.
pub open spec fn dec_value(s: Seq<char>) -> nat
    decreases s.len(),
{
    if s.len() == 0 {
        0
    } else {
        dec_value(s.drop_last()) * 10 + digit_val(s.last())
    }
}

/// What parsing a decimal string yields: the value when `s` is a non-empty
/// run of ASCII digits whose value fits in `usize`, nothing otherwise.
pub open spec fn parse_usize_spec(s: Seq<char>) -> Option<usize> {
    if s.len() > 0 && all_digits(s) && dec_value(s) <= usize::MAX {
        Some(dec_value(s) as usize)
    } else {
        None
    }
}

fn digit_char(d: usize) -> (r: char)
    requires
        d < 10,
    ensures
        r == digit_of(d as nat),
{
    if d == 0 {
        '0'
    } else if d == 1 {
        '1'
    } else if d == 2 {
        '2'
    } else if d == 3 {
        '3'
    } else if d == 4 {
        '4'
    } else if d == 5 {
        '5'
    } else if d == 6 {
        '6'
    } else if d == 7 {
        '7'
    } else if d == 8 {
        '8'
    } else {
        '9'
    }
}

/// The reversal of a sequence.
pub open spec fn rev_of(s: Seq<char>) -> Seq<char> {
    Seq::new(s.len(), |j: int| s[s.len() - 1 - j])
}

/// Renders `n` in decimal.
pub fn usize_to_string(n: usize) -> (r: String)
    ensures
        r@ == dec_str(n as nat),
{
    let mut m = n;
    let mut digits: Vec<char> = Vec::new();
    proof {
        assert(rev_of(digits@) =~= Seq::<char>::empty());
        assert(dec_str(n as nat) =~= dec_str(m as nat) + rev_of(digits@));
    }
    while m >= 10
        invariant
            dec_str(n as nat) == dec_str(m as nat) + rev_of(digits@),
        decreases m,
    {
        let d = m % 10;
        let c = digit_char(d);
        proof {
            assert(rev_of(digits@.push(c)) =~= seq![c] + rev_of(digits@));
            assert(dec_str(m as nat) == dec_str((m as nat) / 10).push(digit_of((m as nat) % 10)));
            assert(dec_str((m as nat) / 10).push(c) =~= dec_str((m as nat) / 10) + seq![c]);
            assert(dec_str((m as nat) / 10) + (seq![c] + rev_of(digits@)) =~= (dec_str(
                (m as nat) / 10,
            ) + seq![c]) + rev_of(digits@));
            assert((m / 10) as nat == (m as nat) / 10);
        }
        digits.push(c);
        m = m / 10;
    }
    let c = digit_char(m);
    proof {
        assert(rev_of(digits@.push(c)) =~= seq![c] + rev_of(digits@));
        assert(dec_str(m as nat) =~= seq![c]);
    }
    digits.push(c);
    let ghost target = dec_str(n as nat);
    proof {
        assert(target =~= rev_of(digits@));
    }
    let len = digits.len();
    let mut out = String::new();
    let mut k: usize = 0;
    proof {
        assert(out@ =~= rev_of(digits@).take(0));
    }
    while k < len
        invariant
            k <= len,
            len == digits@.len(),
            target == rev_of(digits@),
            out@ == rev_of(digits@).take(k as int),
        decreases len - k,
    {
        push_char(&mut out, digits[len - 1 - k]);
        proof {
            assert(rev_of(digits@).take(k + 1).drop_last() =~= rev_of(digits@).take(k as int));
            assert(rev_of(digits@).take(k + 1).last() == digits@[len - 1 - k]);
            assert(out@ =~= rev_of(digits@).take(k + 1));
        }
        k += 1;
    }
    proof {
        assert(rev_of(digits@).take(len as int) =~= rev_of(digits@));
    }
    out
}

pub proof fn lemma_dec_value_prefix(s: Seq<char>, j: int)
    requires
        0 <= j <= s.len(),
    ensures
        dec_value(s) >= dec_value(s.take(j)),
    decreases s.len(),
{
    if j == s.len() {
        assert(s.take(j) =~= s);
    } else {
        lemma_dec_value_prefix(s.drop_last(), j);
        assert(s.drop_last().take(j) =~= s.take(j));
        assert(dec_value(s.drop_last()) * 10 >= dec_value(s.drop_last())) by (nonlinear_arith);
    }
}

/// Parses a non-empty run of ASCII digits as a `usize`; anything else, and
/// any value too large for `usize`, yields nothing.
pub fn parse_usize(s: &str) -> (r: Option<usize>)
    ensures
        r == parse_usize_spec(s@),
{
    let n = s.unicode_len();
    if n == 0 {
        return None;
    }
    let mut acc: usize = 0;
    let mut i: usize = 0;
    proof {
        assert(s@.take(0) =~= Seq::<char>::empty());
    }
    while i < n
        invariant
            i <= n,
            n == s@.len(),
            all_digits(s@.take(i as int)),
            acc == dec_value(s@.take(i as int)),
        decreases n - i,
    {
        let c = s.get_char(i);
        if !is_digit(c) {
            assert(!all_digits(s@));
            return None;
        }
        let u: u32 = c as u32;
        let d: usize = (u - 48) as usize;
        proof {
            assert(s@.take(i + 1).drop_last() =~= s@.take(i as int));
            assert(s@.take(i + 1).last() == s@[i as int]);
        }
        if acc > (usize::MAX - d) / 10 {
            proof {
                assert(acc * 10 + d > usize::MAX) by (nonlinear_arith)
                    requires
                        acc > (usize::MAX - d) / 10,
                        d <= 9,
                ;
                assert(dec_value(s@.take(i + 1)) > usize::MAX);
                lemma_dec_value_prefix(s@, i + 1);
            }
            return None;
        }
        proof {
            assert(acc * 10 + d <= usize::MAX) by (nonlinear_arith)
                requires
                    acc <= (usize::MAX - d) / 10,
                    d <= 9,
            ;
        }
        acc = acc * 10 + d;
        i += 1;
    }
    proof {
        assert(s@.take(n as int) =~= s@);
    }
    Some(acc)
}

} // verus!
