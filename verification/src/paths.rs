//! Path logic over plain strings: the `.dot` suffix test, relative paths
//! under the watched root, the startup choice of the watched directory, and
//! the file-name surgery the stale-file cleanup needs.
//!
//! Paths cross the library boundary as strings with `/` separators; the
//! platform-specific path types stay outside.

use vstd::prelude::*;
use vstd::string::*;

verus! {

/// Whether a path names a DOT snapshot: it ends in `.dot`.
pub open spec fn is_dot_name(s: Seq<char>) -> bool {
    s.len() >= 4 && s.subrange(s.len() - 4, s.len() as int) == ".dot"@
}

/// The `.dot` suffix test on a path string.
pub fn has_dot_suffix(s: &str) -> (r: bool)
    ensures
        r == is_dot_name(s@),
{
    proof {
        reveal_strlit(".dot");
    }
    let n = s.unicode_len();
    if n < 4 {
        return false;
    }
    let r = s.get_char(n - 4) == '.' && s.get_char(n - 3) == 'd' && s.get_char(n - 2) == 'o'
        && s.get_char(n - 1) == 't';
    proof {
        if r {
            assert(s@.subrange(s@.len() - 4, s@.len() as int) =~= ".dot"@);
        } else {
            assert(s@.subrange(s@.len() - 4, s@.len() as int) != ".dot"@) by {
                if s@.subrange(s@.len() - 4, s@.len() as int) == ".dot"@ {
                    assert(s@.subrange(s@.len() - 4, s@.len() as int)[0] == '.');
                    assert(s@.subrange(s@.len() - 4, s@.len() as int)[1] == 'd');
                    assert(s@.subrange(s@.len() - 4, s@.len() as int)[2] == 'o');
                    assert(s@.subrange(s@.len() - 4, s@.len() as int)[3] == 't');
                }
            }
        }
    }
    r
}

/// The client-facing name of `abs` under the root `root`: the remainder after
/// `root` and one separator, or nothing if `abs` does not lie under `root`.
pub open spec fn rel_path_of(root: Seq<char>, abs: Seq<char>) -> Option<Seq<char>> {
    if abs.len() > root.len() && abs.take(root.len() as int) == root && abs[root.len() as int]
        == '/' {
        Some(abs.skip(root.len() + 1 as int))
    } else {
        None
    }
}

/// Strips the root prefix from an absolute path; `None` marks a path outside
/// the root.
pub fn relative_path(root: &str, abs: &str) -> (r: Option<String>)
    ensures
        r is Some <==> rel_path_of(root@, abs@) is Some,
        r matches Some(s) ==> rel_path_of(root@, abs@) == Some(s@),
{
    let rn = root.unicode_len();
    let an = abs.unicode_len();
    if an <= rn {
        return None;
    }
    let mut i: usize = 0;
    while i < rn
        invariant
            rn == root@.len(),
            an == abs@.len(),
            an > rn,
            0 <= i <= rn,
            forall|k: int| 0 <= k < i ==> abs@[k] == root@[k],
        decreases rn - i,
    {
        if abs.get_char(i) != root.get_char(i) {
            proof {
                assert(abs@.take(rn as int)[i as int] != root@[i as int]);
            }
            return None;
        }
        i += 1;
    }
    proof {
        assert(abs@.take(rn as int) =~= root@);
    }
    if abs.get_char(rn) != '/' {
        return None;
    }
    let rest = abs.substring_char(rn + 1, an);
    proof {
        assert(rest@ =~= abs@.skip(rn + 1));
    }
    Some(rest.to_owned())
}

/// The text of an optional string.
pub open spec fn opt_view(o: Option<String>) -> Option<Seq<char>> {
    match o {
        Option::Some(s) => Option::Some(s@),
        Option::None => Option::None,
    }
}

/// Which directory is watched: the command-line flag wins, then the
/// environment variable, then the per-user cache directory joined with
/// `gstreamer-dots`; nothing if none of the three is available.
pub open spec fn resolved_dot_dir(
    arg: Option<Seq<char>>,
    env: Option<Seq<char>>,
    cache: Option<Seq<char>>,
) -> Option<Seq<char>> {
    if arg is Some {
        arg
    } else if env is Some {
        env
    } else {
        match cache {
            Option::Some(c) => Option::Some(c + "/gstreamer-dots"@),
            Option::None => Option::None,
        }
    }
}

/// Picks the watched directory from the three startup sources.
pub fn resolve_dot_dir(arg: Option<String>, env: Option<String>, cache: Option<String>) -> (r:
    Option<String>)
    ensures
        opt_view(r) == resolved_dot_dir(opt_view(arg), opt_view(env), opt_view(cache)),
{
    match arg {
        Option::Some(a) => Option::Some(a),
        Option::None => match env {
            Option::Some(e) => Option::Some(e),
            Option::None => match cache {
                Option::Some(c) => Option::Some(c.concat("/gstreamer-dots")),
                Option::None => Option::None,
            },
        },
    }
}

/// Where the stem of a file name ends: the index of the last `.` that is not
/// the leading character, or the whole length when the name has no extension.
pub open spec fn stem_end(s: Seq<char>) -> int
    decreases s.len(),
{
    if s.len() <= 1 {
        s.len() as int
    } else if s.last() == '.' {
        s.len() - 1
    } else {
        let d = stem_end(s.drop_last());
        if d == s.len() - 1 {
            s.len() as int
        } else {
            d
        }
    }
}

/// `stem_end` finds the last `.` past the leading character, if any.
pub proof fn lemma_stem_end(s: Seq<char>)
    ensures
        0 <= stem_end(s) <= s.len(),
        s.len() > 0 ==> stem_end(s) >= 1,
        stem_end(s) < s.len() ==> s[stem_end(s)] == '.',
        forall|k: int| stem_end(s) < k < s.len() ==> s[k] != '.',
        stem_end(s) == s.len() ==> forall|k: int| 1 <= k < s.len() ==> s[k] != '.',
    decreases s.len(),
{
    if s.len() <= 1 {
    } else if s.last() == '.' {
    } else {
        lemma_stem_end(s.drop_last());
        assert(forall|k: int| 0 <= k < s.len() - 1 ==> s[k] == s.drop_last()[k]);
    }
}

/// The name a generated artifact corresponds to: the stem with the extension
/// replaced by `dot` (or `.dot` appended when there is no extension).
pub open spec fn dot_name_for(s: Seq<char>) -> Seq<char> {
    s.take(stem_end(s)) + ".dot"@
}

fn stem_end_exec(s: &str) -> (r: usize)
    ensures
        r == stem_end(s@),
{
    proof {
        lemma_stem_end(s@);
    }
    let n = s.unicode_len();
    let mut j = n;
    while j > 1
        invariant
            n == s@.len(),
            1 <= j <= n || (j == n && n <= 1),
            forall|k: int| j <= k < n ==> s@[k] != '.',
        decreases j,
    {
        if s.get_char(j - 1) == '.' {
            proof {
                lemma_stem_end(s@);
                assert(stem_end(s@) == j - 1) by {
                    if stem_end(s@) == s@.len() {
                        assert(s@[j - 1] != '.');
                        assert(false);
                    } else if stem_end(s@) < j - 1 {
                        assert(s@[j - 1] != '.');
                        assert(false);
                    } else if stem_end(s@) > j - 1 {
                        assert(s@[stem_end(s@)] == '.');
                        assert(s@[stem_end(s@)] != '.');
                        assert(false);
                    }
                }
            }
            return j - 1;
        }
        j -= 1;
    }
    proof {
        lemma_stem_end(s@);
        assert(stem_end(s@) == n) by {
            if s@.len() > 1 && stem_end(s@) < s@.len() {
                assert(s@[stem_end(s@)] == '.');
                assert(s@[stem_end(s@)] != '.');
                assert(false);
            }
        }
    }
    n
}

/// The `.dot` file name that a generated `svg`/`html` artifact belongs to.
pub fn dot_file_name_for(s: &str) -> (r: String)
    ensures
        r@ == dot_name_for(s@),
{
    proof {
        lemma_stem_end(s@);
    }
    let d = stem_end_exec(s);
    let stem = s.substring_char(0, d);
    proof {
        assert(stem@ =~= s@.take(stem_end(s@)));
    }
    let mut out = stem.to_owned();
    out.append(".dot");
    proof {
        reveal_strlit(".dot");
    }
    out
}

/// Whether the file name `s` carries the extension `ext` (the part after the
/// last `.` that is not the leading character).
pub open spec fn has_extension(s: Seq<char>, ext: Seq<char>) -> bool {
    stem_end(s) < s.len() && s.skip(stem_end(s) + 1) == ext
}

fn str_eq(a: &str, b: &str) -> (r: bool)
    ensures
        r == (a@ == b@),
{
    let an = a.unicode_len();
    let bn = b.unicode_len();
    if an != bn {
        proof {
            assert(a@ != b@);
        }
        return false;
    }
    let mut i: usize = 0;
    while i < an
        invariant
            an == a@.len(),
            an == b@.len(),
            0 <= i <= an,
            forall|k: int| 0 <= k < i ==> a@[k] == b@[k],
        decreases an - i,
    {
        if a.get_char(i) != b.get_char(i) {
            return false;
        }
        i += 1;
    }
    proof {
        assert(a@ =~= b@);
    }
    true
}

/// The startup cleanup decision for one generated artifact: it is removed
/// exactly when it carries the generated extension and the `.dot` file it was
/// rendered from no longer exists.
pub fn should_remove_generated(file_name: &str, ext: &str, dot_exists: bool) -> (r: bool)
    ensures
        r == (!dot_exists && has_extension(file_name@, ext@)),
{
    !dot_exists && extension_is(file_name, ext)
}

/// The extension test used by the startup cleanup of generated artifacts.
pub fn extension_is(s: &str, ext: &str) -> (r: bool)
    ensures
        r == has_extension(s@, ext@),
{
    let d = stem_end_exec(s);
    let n = s.unicode_len();
    if d >= n {
        return false;
    }
    let tail = s.substring_char(d + 1, n);
    proof {
        assert(tail@ =~= s@.skip(stem_end(s@) + 1));
    }
    str_eq(tail, ext)
}

} // verus!
