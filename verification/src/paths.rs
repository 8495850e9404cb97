//! Path resolution: expanding the home-directory marker `~` and joining a
//! base path with a segment, as plain functions over strings. The values of
//! the relevant environment variables are handed in by the caller.

use vstd::prelude::*;

verus! {

/// The view of an optional environment-variable value.
pub open spec fn opt_str_view(o: Option<String>) -> Option<Seq<char>> {
    match o {
        Some(s) => Some(s@),
        None => None,
    }
}

/// Every occurrence of the marker `~` in `s` replaced by `home`.
pub open spec fn expand_marker(s: Seq<char>, home: Seq<char>) -> Seq<char>
    decreases s.len(),
{
    if s.len() == 0 {
        Seq::empty()
    } else if s[0] == '~' {
        home + expand_marker(s.drop_first(), home)
    } else {
        seq![s[0]] + expand_marker(s.drop_first(), home)
    }
}

/// Marker expansion with an optional home value: when the home directory is
/// unknown, the string is left as it is.
pub open spec fn expanded(s: Seq<char>, home: Option<Seq<char>>) -> Seq<char> {
    match home {
        Some(h) => expand_marker(s, h),
        None => s,
    }
}

/// Expansion distributes over concatenation.
pub proof fn lemma_expand_marker_concat(a: Seq<char>, b: Seq<char>, home: Seq<char>)
    ensures
        expand_marker(a + b, home) == expand_marker(a, home) + expand_marker(b, home),
    decreases a.len(),
{
    if a.len() == 0 {
        assert(a + b =~= b);
        assert(expand_marker(a, home) + expand_marker(b, home) =~= expand_marker(b, home));
    } else {
        assert((a + b).drop_first() =~= a.drop_first() + b);
        lemma_expand_marker_concat(a.drop_first(), b, home);
        if a[0] == '~' {
            assert(home + (expand_marker(a.drop_first(), home) + expand_marker(b, home))
                =~= (home + expand_marker(a.drop_first(), home)) + expand_marker(b, home));
        } else {
            assert(seq![a[0]] + (expand_marker(a.drop_first(), home) + expand_marker(b, home))
                =~= (seq![a[0]] + expand_marker(a.drop_first(), home)) + expand_marker(b, home));
        }
    }
}

/// A string without the marker is left unchanged by expansion.
pub proof fn lemma_expand_marker_absent(s: Seq<char>, home: Seq<char>)
    requires
        forall|j: int| 0 <= j < s.len() ==> s[j] != '~',
    ensures
        expand_marker(s, home) == s,
    decreases s.len(),
{
    if s.len() == 0 {
        assert(expand_marker(s, home) =~= s);
    } else {
        lemma_expand_marker_absent(s.drop_first(), home);
        assert(seq![s[0]] + s.drop_first() =~= s);
    }
}

/// Replaces every `~` in `string` by `home`, when a home directory is known;
/// with no home directory the string comes back unchanged.
pub fn expand_tilde(string: &str, home: &Option<String>) -> (r: String)
    ensures
        r@ == expanded(string@, opt_str_view(*home)),
{
    match home {
        None => string.to_owned(),
        Some(h) => {
            let n = string.unicode_len();
            let mut out = String::new();
            let mut start: usize = 0;
            let mut i: usize = 0;
            while i < n
                invariant
                    0 <= start <= i <= n,
                    n == string@.len(),
                    forall|j: int| start <= j < i ==> string@[j] != '~',
                    out@ + string@.subrange(start as int, i as int)
                        == expand_marker(string@.subrange(0, i as int), h@),
                decreases n - i,
            {
                if string.get_char(i) == '~' {
                    let run = string.substring_char(start, i);
                    out.append(run);
                    out.append(h.as_str());
                    proof {
                        let pre = string@.subrange(0, i as int);
                        let one = string@.subrange(i as int, i + 1 as int);
                        assert(one =~= seq![string@[i as int]]);
                        lemma_expand_marker_concat(pre, one, h@);
                        assert(expand_marker(one, h@) =~= h@ + expand_marker(one.drop_first(), h@));
                        assert(one.drop_first() =~= Seq::<char>::empty());
                        assert(h@ + Seq::<char>::empty() =~= h@);
                        assert(pre + one =~= string@.subrange(0, i + 1 as int));
                        lemma_expand_marker_absent(string@.subrange(start as int, i as int), h@);
                        assert(out@ + string@.subrange(start as int, i as int) + h@
                            + string@.subrange(i + 1 as int, i + 1 as int)
                            =~= out@ + string@.subrange(start as int, i as int) + h@);
                    }
                    start = i + 1;
                }
                proof {
                    if string@[i as int] != '~' {
                        let pre = string@.subrange(0, i as int);
                        let one = string@.subrange(i as int, i + 1 as int);
                        assert(one =~= seq![string@[i as int]]);
                        lemma_expand_marker_concat(pre, one, h@);
                        assert(expand_marker(one, h@) =~= seq![string@[i as int]]
                            + expand_marker(one.drop_first(), h@));
                        assert(one.drop_first() =~= Seq::<char>::empty());
                        assert(seq![string@[i as int]] + Seq::<char>::empty()
                            =~= seq![string@[i as int]]);
                        assert(pre + one =~= string@.subrange(0, i + 1 as int));
                        assert(out@ + string@.subrange(start as int, i + 1 as int)
                            =~= (out@ + string@.subrange(start as int, i as int))
                                + seq![string@[i as int]]);
                    }
                }
                i = i + 1;
            }
            let tail = string.substring_char(start, n);
            out.append(tail);
            proof {
                assert(string@.subrange(0, n as int) =~= string@);
            }
            out
        },
    }
}

/// `base` joined with `segment`: an absolute segment stands alone; an empty
/// base contributes nothing; otherwise a single separator is put between the
/// two unless the base already ends with one.
pub open spec fn joined(base: Seq<char>, segment: Seq<char>) -> Seq<char> {
    if segment.len() > 0 && segment[0] == '/' {
        segment
    } else if base.len() == 0 {
        segment
    } else if base[base.len() - 1] == '/' {
        base + segment
    } else {
        base + seq!['/'] + segment
    }
}

/// Joins `base` and `segment` with the separator rule of `joined`.
pub fn join_path(base: &str, segment: &str) -> (r: String)
    ensures
        r@ == joined(base@, segment@),
{
    proof {
        reveal_strlit("/");
    }
    let seg_len = segment.unicode_len();
    if seg_len > 0 && segment.get_char(0) == '/' {
        segment.to_owned()
    } else {
        let base_len = base.unicode_len();
        if base_len == 0 {
            segment.to_owned()
        } else if base.get_char(base_len - 1) == '/' {
            let mut r = base.to_owned();
            r.append(segment);
            r
        } else {
            let mut r = base.to_owned();
            r.append("/");
            r.append(segment);
            proof {
                assert("/"@ =~= seq!['/']);
            }
            r
        }
    }
}

/// Joining and then expanding the marker: how the walker turns a base path
/// and a configured segment into the full path it reports or lists.
pub open spec fn resolved(base: Seq<char>, segment: Seq<char>, home: Option<Seq<char>>) -> Seq<
    char,
> {
    expanded(joined(base, segment), home)
}

/// Joins `base` and `segment` and expands the home marker in the result.
pub fn resolve_path(base: &str, segment: &str, home: &Option<String>) -> (r: String)
    ensures
        r@ == resolved(base@, segment@, opt_str_view(*home)),
{
    let j = join_path(base, segment);
    expand_tilde(j.as_str(), home)
}

/// The default location of the configuration file, relative to the
/// configuration base directory `xdg`: when that is unknown, the conventional
/// `~/.config` base stands in.
pub open spec fn default_config_path(xdg: Option<Seq<char>>) -> Seq<char> {
    let base = match xdg {
        Some(p) => p,
        None => "~/.config"@,
    };
    joined(base, "findproject/config.yaml"@)
}

/// Computes the default configuration file path from the optional value of
/// the configuration-home environment variable.
pub fn get_default_config_path(xdg: &Option<String>) -> (r: String)
    ensures
        r@ == default_config_path(opt_str_view(*xdg)),
{
    match xdg {
        Some(p) => join_path(p.as_str(), "findproject/config.yaml"),
        None => join_path("~/.config", "findproject/config.yaml"),
    }
}

} // verus!
