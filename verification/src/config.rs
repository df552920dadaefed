//! Run configuration: the input path and the two output paths, with the
//! default output names derived from the input's base name.

use vstd::prelude::*;

verus! {

/// Paths for one run.
pub struct Config {
    /// Path of the input HTML document.
    pub input_file: String,
    /// Path the tabular output is written to.
    pub output_csv: String,
    /// Path the Markdown output is written to.
    pub output_md: String,
}

/// `s` without its trailing slashes.
pub open spec fn drop_trailing_slashes(s: Seq<char>) -> Seq<char>
    decreases s.len(),
{
    if s.len() > 0 && s.last() == '/' {
        drop_trailing_slashes(s.drop_last())
    } else {
        s
    }
}

/// The suffix of `s` after its last slash (all of `s` when it has none).
pub open spec fn after_last_slash(s: Seq<char>) -> Seq<char>
    decreases s.len(),
{
    if s.len() == 0 {
        s
    } else if s.last() == '/' {
        Seq::<char>::empty()
    } else {
        after_last_slash(s.drop_last()).push(s.last())
    }
}

/// The base name of a path: what follows the last slash, trailing slashes
/// ignored.
pub open spec fn base_name_spec(s: Seq<char>) -> Seq<char> {
    after_last_slash(drop_trailing_slashes(s))
}

/// The index of the last dot of `n` that is not its first character, or 0
/// when there is none: a leading dot does not begin an extension.
pub open spec fn last_dot_index(n: Seq<char>) -> int
    decreases n.len(),
{
    if n.len() <= 1 {
        0
    } else if n.last() == '.' {
        n.len() - 1
    } else {
        last_dot_index(n.drop_last())
    }
}

/// `n` without its extension: everything before the last dot, unless the
/// only dot is the leading character.
pub open spec fn strip_ext_spec(n: Seq<char>) -> Seq<char> {
    if last_dot_index(n) > 0 {
        n.take(last_dot_index(n))
    } else {
        n
    }
}

/// The default output name for an input path: its base name with the
/// extension replaced by `ext` (applied as replacing the base name's
/// extension, then the remaining name's); `output.<ext>` when the path has
/// no usable base name.
pub open spec fn default_name_spec(path: Seq<char>, ext: Seq<char>) -> Seq<char> {
    let name = base_name_spec(path);
    if name.len() == 0 || name == "."@ || name == ".."@ {
        "output."@ + ext
    } else {
        strip_ext_spec(strip_ext_spec(name)) + "."@ + ext
    }
}

proof fn lemma_drop_trailing_slashes(s: Seq<char>, e: int)
    requires
        0 <= e <= s.len(),
        forall|k: int| e <= k < s.len() ==> s[k] == '/',
        e == 0 || s[e - 1] != '/',
    ensures
        drop_trailing_slashes(s) == s.take(e),
    decreases s.len(),
{
    if e == s.len() {
        assert(s.take(e) =~= s);
    } else {
        lemma_drop_trailing_slashes(s.drop_last(), e);
        assert(s.drop_last().take(e) =~= s.take(e));
    }
}

proof fn lemma_after_last_slash(t: Seq<char>, a: int)
    requires
        0 <= a <= t.len(),
        forall|k: int| a <= k < t.len() ==> t[k] != '/',
        a == 0 || t[a - 1] == '/',
    ensures
        after_last_slash(t) == t.skip(a),
    decreases t.len() - a,
{
    if a == t.len() {
        assert(t.skip(a) =~= Seq::<char>::empty());
    } else {
        lemma_after_last_slash(t.drop_last(), a);
        assert(t.drop_last().skip(a).push(t.last()) =~= t.skip(a));
    }
}

proof fn lemma_last_dot_found(n: Seq<char>, d: int)
    requires
        1 <= d < n.len(),
        n[d] == '.',
        forall|k: int| d < k < n.len() ==> n[k] != '.',
    ensures
        last_dot_index(n) == d,
    decreases n.len(),
{
    if n.last() != '.' {
        lemma_last_dot_found(n.drop_last(), d);
    }
}

proof fn lemma_last_dot_none(n: Seq<char>)
    requires
        forall|k: int| 1 <= k < n.len() ==> n[k] != '.',
    ensures
        last_dot_index(n) == 0,
    decreases n.len(),
{
    if n.len() > 1 {
        lemma_last_dot_none(n.drop_last());
    }
}

/// `n` with its extension removed, a leading dot never counting as one.
fn strip_ext(n: &str) -> (r: String)
    ensures
        r@ == strip_ext_spec(n@),
{
    let len = n.unicode_len();
    let mut j: usize = len;
    while j > 1 && n.get_char(j - 1) != '.'
        invariant
            j <= len,
            len == n@.len(),
            forall|k: int| j <= k < len ==> n@[k] != '.',
        decreases j,
    {
        j -= 1;
    }
    if j > 1 {
        proof {
            lemma_last_dot_found(n@, j - 1);
        }
        let stem = n.substring_char(0, j - 1);
        stem.to_owned()
    } else {
        proof {
            if len > 1 {
                assert(n@[0] != '.' || true);
            }
            lemma_last_dot_none(n@);
        }
        n.to_owned()
    }
}

impl Config {
    /// The default output file name for an input path: the input's base
    /// name with its extension swapped for `ext`, or `output.<ext>` when
    /// the path has no usable base name.
    pub fn default_output_name(input_path: &str, ext: &str) -> (r: String)
        ensures
            r@ == default_name_spec(input_path@, ext@),
    {
        let n = input_path.unicode_len();
        let mut e: usize = n;
        while e > 0 && input_path.get_char(e - 1) == '/'
            invariant
                e <= n,
                n == input_path@.len(),
                forall|k: int| e <= k < n ==> input_path@[k] == '/',
            decreases e,
        {
            e -= 1;
        }
        proof {
            lemma_drop_trailing_slashes(input_path@, e as int);
        }
        let mut a: usize = e;
        while a > 0 && input_path.get_char(a - 1) != '/'
            invariant
                a <= e,
                n == input_path@.len(),
                e <= n,
                forall|k: int| a <= k < e ==> input_path@[k] != '/',
            decreases a,
        {
            a -= 1;
        }
        let ghost name = base_name_spec(input_path@);
        proof {
            lemma_after_last_slash(input_path@.take(e as int), a as int);
            assert(name =~= input_path@.subrange(a as int, e as int));
        }
        let width = e - a;
        let fallback = width == 0 || (width == 1 && input_path.get_char(a) == '.') || (width == 2
            && input_path.get_char(a) == '.' && input_path.get_char(a + 1) == '.');
        if fallback {
            proof {
                reveal_strlit(".");
                reveal_strlit("..");
                if width == 1 {
                    assert(name =~= "."@);
                }
                if width == 2 {
                    assert(name =~= ".."@);
                }
            }
            let mut out = String::from_str("output.");
            out.append(ext);
            return out;
        }
        proof {
            reveal_strlit(".");
            reveal_strlit("..");
            assert(("."@).len() == 1);
            assert((".."@).len() == 2);
            if name == "."@ {
                assert(name[0] == ("."@)[0]);
                assert(false);
            }
            if name == ".."@ {
                assert(name[0] == (".."@)[0] && name[1] == (".."@)[1]);
                assert(false);
            }
        }
        let base = input_path.substring_char(a, e);
        let once = strip_ext(base);
        let mut out = strip_ext(once.as_str());
        out.append(".");
        out.append(ext);
        proof {
            assert(out@ =~= strip_ext_spec(strip_ext_spec(name)) + "."@ + ext@);
        }
        out
    }

    /// Builds the configuration from the command line: the first argument
    /// is the required input path; the optional second and third are the
    /// output paths, defaulted from the input's base name when absent.
    pub fn new(args: &Vec<String>) -> (r: Result<Config, &'static str>)
        ensures
            match r {
                Ok(c) => {
                    &&& args@.len() > 1
                    &&& c.input_file@ == args@[1]@
                    &&& c.output_csv@ == if args@.len() > 2 {
                        args@[2]@
                    } else {
                        default_name_spec(args@[1]@, "csv"@)
                    }
                    &&& c.output_md@ == if args@.len() > 3 {
                        args@[3]@
                    } else {
                        default_name_spec(args@[1]@, "md"@)
                    }
                },
                Err(m) => args@.len() <= 1 && m@ == "Input file path is required"@,
            },
{
        if args.len() <= 1 {
            return Err("Input file path is required");
        }
        let input_file = args[1].clone();
        let output_csv = if args.len() > 2 {
            args[2].clone()
        } else {
            Self::default_output_name(input_file.as_str(), "csv")
        };
        let output_md = if args.len() > 3 {
            args[3].clone()
        } else {
            Self::default_output_name(input_file.as_str(), "md")
        };
        Ok(Config { input_file, output_csv, output_md })
    }
}

} // verus!
