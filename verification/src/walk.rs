//! The directory walker: a depth-first traversal of a `Directory` tree
//! against a recorded filesystem listing, collecting one line per directory
//! of interest. A failure in one branch never touches its siblings.

use crate::config::Directory;
use crate::paths::{join_path, joined, opt_str_view, resolve_path, resolved};
use vstd::prelude::*;

verus! {

/// One entry of a directory listing: a child's name and whether that child
/// is itself a directory.
pub struct FsEntry {
    pub name: String,
    pub is_dir: bool,
}

/// The listing of one directory, keyed by the full path the walker resolves
/// for it.
pub struct FsDir {
    pub path: String,
    pub entries: Vec<FsEntry>,
}

/// What the walker sees of the filesystem: the listings of the directories
/// it may visit, in the order their children were enumerated. A path with no
/// listing recorded here is one whose listing failed.
pub struct FsSnapshot {
    pub dirs: Vec<FsDir>,
}

/// A failure local to one branch of the walk.
#[derive(Debug, Clone, Copy, PartialEq, Eq, Structural)]
pub enum WalkError {
    /// The directory's children could not be listed.
    ListingFailed,
}

/// The recorded listing under `path`: the first one recorded for that path,
/// or nothing when none is.
pub open spec fn lookup_dir(dirs: Seq<FsDir>, path: Seq<char>) -> Option<Seq<FsEntry>>
    decreases dirs.len(),
{
    if dirs.len() == 0 {
        None
    } else if dirs[0].path@ == path {
        Some(dirs[0].entries@)
    } else {
        lookup_dir(dirs.drop_first(), path)
    }
}

impl FsSnapshot {
    /// The recorded listing under `path`, if any.
    pub fn list_dir(&self, path: &String) -> (r: Option<&Vec<FsEntry>>)
        ensures
            match r {
                Some(entries) => lookup_dir(self.dirs@, path@) == Some(entries@),
                None => lookup_dir(self.dirs@, path@) is None,
            },
    {
        let n = self.dirs.len();
        proof {
            assert(self.dirs@.subrange(0, n as int) =~= self.dirs@);
        }
        let mut i: usize = 0;
        while i < n
            invariant
                0 <= i <= n == self.dirs@.len(),
                lookup_dir(self.dirs@, path@) == lookup_dir(
                    self.dirs@.subrange(i as int, n as int),
                    path@,
                ),
            decreases n - i,
        {
            proof {
                assert(self.dirs@.subrange(i as int, n as int).drop_first() =~= self.dirs@
                    .subrange(i + 1 as int, n as int));
                assert(self.dirs@.subrange(i as int, n as int)[0] == self.dirs@[i as int]);
            }
            if self.dirs[i].path == *path {
                return Some(&self.dirs[i].entries);
            }
            i = i + 1;
        }
        proof {
            assert(self.dirs@.subrange(n as int, n as int) =~= Seq::<FsDir>::empty());
        }
        None
    }
}

/// Whether `name` is one of `names`.
pub open spec fn name_in(names: Seq<String>, name: Seq<char>) -> bool {
    exists|j: int| 0 <= j < names.len() && (#[trigger] names[j])@ == name
}

/// Whether `name` is the `path` of one of the sub-directory specifications.
pub open spec fn is_sub_name(subs: Seq<Directory>, name: Seq<char>) -> bool {
    exists|j: int| 0 <= j < subs.len() && (#[trigger] subs[j]).path@ == name
}

/// An entry is reported generically exactly when it is a directory, its name
/// is not excluded, and its name is not dispatched to a sub-directory
/// specification of its own.
pub open spec fn should_print_v(entry: FsEntry, directory: Directory) -> bool {
    &&& entry.is_dir
    &&& !name_in(directory.exclude@, entry.name@)
    &&& !is_sub_name(directory.sub_directories@, entry.name@)
}

/// Decides whether a listed entry is reported under `directory`.
pub fn should_print(entry: &FsEntry, directory: &Directory) -> (r: bool)
    ensures
        r == should_print_v(*entry, *directory),
{
    if !entry.is_dir {
        return false;
    }
    let n_excl = directory.exclude.len();
    let mut j: usize = 0;
    while j < n_excl
        invariant
            0 <= j <= n_excl == directory.exclude@.len(),
            forall|k: int| 0 <= k < j ==> (#[trigger] directory.exclude@[k])@ != entry.name@,
        decreases n_excl - j,
    {
        if directory.exclude[j] == entry.name {
            proof {
                assert((directory.exclude@[j as int])@ == entry.name@);
            }
            return false;
        }
        j = j + 1;
    }
    let n_subs = directory.sub_directories.len();
    let mut k: usize = 0;
    while k < n_subs
        invariant
            0 <= k <= n_subs == directory.sub_directories@.len(),
            forall|m: int| 0 <= m < k ==> (#[trigger] directory.sub_directories@[m]).path@
                != entry.name@,
        decreases n_subs - k,
    {
        if directory.sub_directories[k].path == entry.name {
            proof {
                assert((directory.sub_directories@[k as int]).path@ == entry.name@);
            }
            return false;
        }
        k = k + 1;
    }
    true
}

/// The lines of the generic pass over `entries` under a specification:
/// the joined path of every entry that `should_print_v` accepts, in listing
/// order.
pub open spec fn generic_lines(entries: Seq<FsEntry>, directory: Directory, full: Seq<char>) -> Seq<
    Seq<char>,
>
    decreases entries.len(),
{
    if entries.len() == 0 {
        Seq::empty()
    } else {
        let head = generic_lines(entries.drop_last(), directory, full);
        let tail = if should_print_v(entries.last(), directory) {
            seq![joined(full, entries.last().name@)]
        } else {
            Seq::empty()
        };
        head + tail
    }
}

/// The lines of one walk: the resolved path alone for an `only_self`
/// specification; otherwise nothing when the listing is missing, and else
/// the generic lines followed by the lines of the sub-directory
/// specifications, each walked with its own filters against the resolved
/// path as the new base.
pub open spec fn walk_v(
    directory: Directory,
    base: Seq<char>,
    fs: FsSnapshot,
    home: Option<Seq<char>>,
) -> Option<Seq<Seq<char>>>
    decreases directory, 1int, 0int,
{
    let full = resolved(base, directory.path@, home);
    if directory.only_self {
        Some(seq![full])
    } else {
        match lookup_dir(fs.dirs@, full) {
            None => None,
            Some(entries) => Some(
                generic_lines(entries, directory, full) + subs_lines(directory, 0, full, fs, home),
            ),
        }
    }
}

/// The lines of the sub-directory specifications from position `i` on, each
/// branch contributing its lines on success and nothing on failure.
pub open spec fn subs_lines(
    directory: Directory,
    i: int,
    full: Seq<char>,
    fs: FsSnapshot,
    home: Option<Seq<char>>,
) -> Seq<Seq<char>>
    decreases directory, 0int, directory.sub_directories@.len() - i,
{
    if i < 0 || i >= directory.sub_directories@.len() {
        Seq::empty()
    } else {
        let head = match walk_v(directory.sub_directories@[i], full, fs, home) {
            Some(lines) => lines,
            None => Seq::empty(),
        };
        head + subs_lines(directory, i + 1, full, fs, home)
    }
}

/// The combined output of the top-level specifications from position `i` on,
/// each resolved against an empty base path, a failed branch contributing
/// nothing.
pub open spec fn all_projects_v(
    directories: Seq<Directory>,
    i: int,
    fs: FsSnapshot,
    home: Option<Seq<char>>,
) -> Seq<Seq<char>>
    decreases directories.len() - i,
{
    if i < 0 || i >= directories.len() {
        Seq::empty()
    } else {
        let head = match walk_v(directories[i], Seq::empty(), fs, home) {
            Some(lines) => lines,
            None => Seq::empty(),
        };
        head + all_projects_v(directories, i + 1, fs, home)
    }
}

/// Walks one specification against the snapshot and collects its lines.
/// An `only_self` specification yields its resolved path alone; otherwise a
/// missing listing fails this branch, and each sub-directory branch keeps or
/// loses only its own lines.
pub fn walk_directory(
    directory: &Directory,
    base_path: &String,
    fs: &FsSnapshot,
    home: &Option<String>,
) -> (r: Result<Vec<String>, WalkError>)
    ensures
        match r {
            Ok(lines) => walk_v(*directory, base_path@, *fs, opt_str_view(*home)) == Some(
                lines.deep_view(),
            ),
            Err(e) => walk_v(*directory, base_path@, *fs, opt_str_view(*home)) is None && e
                == WalkError::ListingFailed,
        },
    decreases *directory,
{
    let ghost hv = opt_str_view(*home);
    let full = resolve_path(base_path.as_str(), directory.path.as_str(), home);
    if directory.only_self {
        let mut lines: Vec<String> = Vec::new();
        lines.push(full);
        proof {
            assert(lines.deep_view() =~= seq![resolved(base_path@, directory.path@, hv)]);
        }
        return Ok(lines);
    }
    match fs.list_dir(&full) {
        None => Err(WalkError::ListingFailed),
        Some(entries) => {
            let mut lines: Vec<String> = Vec::new();
            let n = entries.len();
            let mut i: usize = 0;
            while i < n
                invariant
                    0 <= i <= n == entries@.len(),
                    full@ == resolved(base_path@, directory.path@, hv),
                    lines.deep_view() == generic_lines(
                        entries@.subrange(0, i as int),
                        *directory,
                        full@,
                    ),
                decreases n - i,
            {
                let ghost pre = entries@.subrange(0, i as int);
                let ghost post = entries@.subrange(0, i + 1 as int);
                proof {
                    assert(post.drop_last() =~= pre);
                    assert(post.last() == entries@[i as int]);
                }
                if should_print(&entries[i], directory) {
                    let line = join_path(full.as_str(), entries[i].name.as_str());
                    let ghost old_lines = lines.deep_view();
                    lines.push(line);
                    proof {
                        assert(lines.deep_view() =~= old_lines + seq![
                            joined(full@, entries@[i as int].name@),
                        ]);
                    }
                } else {
                    proof {
                        assert(lines.deep_view() =~= generic_lines(pre, *directory, full@)
                            + Seq::<Seq<char>>::empty());
                    }
                }
                i = i + 1;
            }
            proof {
                assert(entries@.subrange(0, n as int) =~= entries@);
            }
            let n_subs = directory.sub_directories.len();
            let mut j: usize = 0;
            while j < n_subs
                invariant
                    0 <= j <= n_subs == directory.sub_directories@.len(),
                    hv == opt_str_view(*home),
                    full@ == resolved(base_path@, directory.path@, hv),
                    lookup_dir(fs.dirs@, full@) == Some(entries@),
                    lines.deep_view() + subs_lines(*directory, j as int, full@, *fs, hv)
                        == generic_lines(entries@, *directory, full@) + subs_lines(
                        *directory,
                        0,
                        full@,
                        *fs,
                        hv,
                    ),
                decreases n_subs - j,
            {
                proof {
                    assert(decreases_to!(directory.sub_directories
                        => directory.sub_directories[j as int]));
                }
                match walk_directory(&directory.sub_directories[j], &full, fs, home) {
                    Ok(mut branch) => {
                        let ghost old_lines = lines.deep_view();
                        let ghost branch_lines = branch.deep_view();
                        lines.append(&mut branch);
                        proof {
                            assert(lines.deep_view() =~= old_lines + branch_lines);
                            assert(old_lines + branch_lines + subs_lines(
                                *directory,
                                j + 1 as int,
                                full@,
                                *fs,
                                hv,
                            ) =~= old_lines + (branch_lines + subs_lines(
                                *directory,
                                j + 1 as int,
                                full@,
                                *fs,
                                hv,
                            )));
                        }
                    },
                    Err(_) => {
                        proof {
                            assert(lines.deep_view() + subs_lines(
                                *directory,
                                j + 1 as int,
                                full@,
                                *fs,
                                hv,
                            ) =~= lines.deep_view() + (Seq::<Seq<char>>::empty() + subs_lines(
                                *directory,
                                j + 1 as int,
                                full@,
                                *fs,
                                hv,
                            )));
                        }
                    },
                }
                j = j + 1;
            }
            proof {
                assert(lines.deep_view() + Seq::<Seq<char>>::empty() =~= lines.deep_view());
            }
            Ok(lines)
        },
    }
}

/// Walks every top-level specification with an empty base path and collects
/// the combined output; a branch that fails contributes nothing and its
/// siblings are still walked.
pub fn print_all_projects(
    directories: &Vec<Directory>,
    fs: &FsSnapshot,
    home: &Option<String>,
) -> (r: Vec<String>)
    ensures
        r.deep_view() == all_projects_v(directories@, 0, *fs, opt_str_view(*home)),
{
    let ghost hv = opt_str_view(*home);
    let empty_base = String::new();
    let mut lines: Vec<String> = Vec::new();
    let n = directories.len();
    let mut i: usize = 0;
    while i < n
        invariant
            0 <= i <= n == directories@.len(),
            hv == opt_str_view(*home),
            empty_base@ == Seq::<char>::empty(),
            lines.deep_view() + all_projects_v(directories@, i as int, *fs, hv) == all_projects_v(
                directories@,
                0,
                *fs,
                hv,
            ),
        decreases n - i,
    {
        match walk_directory(&directories[i], &empty_base, fs, home) {
            Ok(mut branch) => {
                let ghost old_lines = lines.deep_view();
                let ghost branch_lines = branch.deep_view();
                lines.append(&mut branch);
                proof {
                    assert(lines.deep_view() =~= old_lines + branch_lines);
                    assert(old_lines + branch_lines + all_projects_v(
                        directories@,
                        i + 1 as int,
                        *fs,
                        hv,
                    ) =~= old_lines + (branch_lines + all_projects_v(
                        directories@,
                        i + 1 as int,
                        *fs,
                        hv,
                    )));
                }
            },
            Err(_) => {
                proof {
                    assert(lines.deep_view() + all_projects_v(directories@, i + 1 as int, *fs, hv)
                        =~= lines.deep_view() + (Seq::<Seq<char>>::empty() + all_projects_v(
                        directories@,
                        i + 1 as int,
                        *fs,
                        hv,
                    )));
                }
            },
        }
        i = i + 1;
    }
    proof {
        assert(lines.deep_view() + Seq::<Seq<char>>::empty() =~= lines.deep_view());
    }
    lines
}

/// The full paths whose listings one walk consults: the resolved path of
/// every specification that is not `only_self`, in the order the walk
/// reaches them.
pub open spec fn listing_paths_v(
    directory: Directory,
    base: Seq<char>,
    home: Option<Seq<char>>,
) -> Seq<Seq<char>>
    decreases directory, 1int, 0int,
{
    let full = resolved(base, directory.path@, home);
    if directory.only_self {
        Seq::empty()
    } else {
        seq![full] + listing_paths_subs(directory, 0, full, home)
    }
}

/// The listing paths of the sub-directory specifications from position `i`
/// on.
pub open spec fn listing_paths_subs(
    directory: Directory,
    i: int,
    full: Seq<char>,
    home: Option<Seq<char>>,
) -> Seq<Seq<char>>
    decreases directory, 0int, directory.sub_directories@.len() - i,
{
    if i < 0 || i >= directory.sub_directories@.len() {
        Seq::empty()
    } else {
        listing_paths_v(directory.sub_directories@[i], full, home) + listing_paths_subs(
            directory,
            i + 1,
            full,
            home,
        )
    }
}

/// The listing paths of the top-level specifications from position `i` on.
pub open spec fn all_listing_paths(
    directories: Seq<Directory>,
    i: int,
    home: Option<Seq<char>>,
) -> Seq<Seq<char>>
    decreases directories.len() - i,
{
    if i < 0 || i >= directories.len() {
        Seq::empty()
    } else {
        listing_paths_v(directories[i], Seq::empty(), home) + all_listing_paths(
            directories,
            i + 1,
            home,
        )
    }
}

/// Collects the listing paths of one specification.
fn collect_listing_paths(
    directory: &Directory,
    base_path: &String,
    home: &Option<String>,
) -> (r: Vec<String>)
    ensures
        r.deep_view() == listing_paths_v(*directory, base_path@, opt_str_view(*home)),
    decreases *directory,
{
    let ghost hv = opt_str_view(*home);
    let mut out: Vec<String> = Vec::new();
    if directory.only_self {
        proof {
            assert(out.deep_view() =~= Seq::<Seq<char>>::empty());
        }
        return out;
    }
    let full = resolve_path(base_path.as_str(), directory.path.as_str(), home);
    out.push(full.clone());
    proof {
        assert(out.deep_view() =~= seq![resolved(base_path@, directory.path@, hv)]);
    }
    let n_subs = directory.sub_directories.len();
    let mut j: usize = 0;
    while j < n_subs
        invariant
            0 <= j <= n_subs == directory.sub_directories@.len(),
            hv == opt_str_view(*home),
            full@ == resolved(base_path@, directory.path@, hv),
            !directory.only_self,
            out.deep_view() + listing_paths_subs(*directory, j as int, full@, hv) == listing_paths_v(
                *directory,
                base_path@,
                hv,
            ),
        decreases n_subs - j,
    {
        proof {
            assert(decreases_to!(directory.sub_directories
                => directory.sub_directories[j as int]));
        }
        let mut branch = collect_listing_paths(&directory.sub_directories[j], &full, home);
        let ghost old_out = out.deep_view();
        let ghost branch_paths = branch.deep_view();
        out.append(&mut branch);
        proof {
            assert(out.deep_view() =~= old_out + branch_paths);
            assert(old_out + branch_paths + listing_paths_subs(*directory, j + 1 as int, full@, hv)
                =~= old_out + (branch_paths + listing_paths_subs(
                *directory,
                j + 1 as int,
                full@,
                hv,
            )));
        }
        j = j + 1;
    }
    proof {
        assert(out.deep_view() + Seq::<Seq<char>>::empty() =~= out.deep_view());
    }
    out
}

/// The full paths whose listings a walk of all the top-level specifications
/// consults, so that their listings can be recorded into a snapshot before
/// the walk.
pub fn dirs_to_list(directories: &Vec<Directory>, home: &Option<String>) -> (r: Vec<String>)
    ensures
        r.deep_view() == all_listing_paths(directories@, 0, opt_str_view(*home)),
{
    let ghost hv = opt_str_view(*home);
    let empty_base = String::new();
    let mut out: Vec<String> = Vec::new();
    let n = directories.len();
    let mut i: usize = 0;
    while i < n
        invariant
            0 <= i <= n == directories@.len(),
            hv == opt_str_view(*home),
            empty_base@ == Seq::<char>::empty(),
            out.deep_view() + all_listing_paths(directories@, i as int, hv) == all_listing_paths(
                directories@,
                0,
                hv,
            ),
        decreases n - i,
    {
        let mut branch = collect_listing_paths(&directories[i], &empty_base, home);
        let ghost old_out = out.deep_view();
        let ghost branch_paths = branch.deep_view();
        out.append(&mut branch);
        proof {
            assert(out.deep_view() =~= old_out + branch_paths);
            assert(old_out + branch_paths + all_listing_paths(directories@, i + 1 as int, hv)
                =~= old_out + (branch_paths + all_listing_paths(directories@, i + 1 as int, hv)));
        }
        i = i + 1;
    }
    proof {
        assert(out.deep_view() + Seq::<Seq<char>>::empty() =~= out.deep_view());
    }
    out
}

/// A member of the left part of a concatenation is a member of the whole.
pub proof fn lemma_contains_concat_left<A>(a: Seq<A>, b: Seq<A>, x: A)
    requires
        a.contains(x),
    ensures
        (a + b).contains(x),
{
    let idx = choose|idx: int| 0 <= idx < a.len() && a[idx] == x;
    assert((a + b)[idx] == x);
}

/// A member of the right part of a concatenation is a member of the whole.
pub proof fn lemma_contains_concat_right<A>(a: Seq<A>, b: Seq<A>, x: A)
    requires
        b.contains(x),
    ensures
        (a + b).contains(x),
{
    let idx = choose|idx: int| 0 <= idx < b.len() && b[idx] == x;
    assert((a + b)[a.len() + idx] == x);
}

/// A specification marked `only_self` yields exactly one line, its resolved
/// full path, whatever `exclude` and `sub_directories` hold and whatever the
/// filesystem looks like.
pub proof fn lemma_only_self_single_line(
    directory: Directory,
    base: Seq<char>,
    fs: FsSnapshot,
    home: Option<Seq<char>>,
)
    requires
        directory.only_self,
    ensures
        walk_v(directory, base, fs, home) == Some(seq![resolved(base, directory.path@, home)]),
{
}

/// A line stands among the generic lines exactly when some listed entry
/// passes the filter and the line is that entry's joined path.
pub proof fn lemma_generic_lines_iff(
    entries: Seq<FsEntry>,
    directory: Directory,
    full: Seq<char>,
    line: Seq<char>,
)
    ensures
        generic_lines(entries, directory, full).contains(line) <==> exists|k: int|
            0 <= k < entries.len() && should_print_v(#[trigger] entries[k], directory) && line
                == joined(full, entries[k].name@),
    decreases entries.len(),
{
    if entries.len() == 0 {
    } else {
        let rest = entries.drop_last();
        let last = entries.last();
        lemma_generic_lines_iff(rest, directory, full, line);
        let head = generic_lines(rest, directory, full);
        let tail = if should_print_v(last, directory) {
            seq![joined(full, last.name@)]
        } else {
            Seq::<Seq<char>>::empty()
        };
        if (head + tail).contains(line) {
            let idx = choose|idx: int| 0 <= idx < (head + tail).len() && (head + tail)[idx] == line;
            if idx < head.len() {
                assert(head[idx] == line);
                let k = choose|k: int|
                    0 <= k < rest.len() && should_print_v(#[trigger] rest[k], directory) && line
                        == joined(full, rest[k].name@);
                assert(entries[k] == rest[k]);
                assert(should_print_v(entries[k], directory) && line == joined(
                    full,
                    entries[k].name@,
                ));
            } else {
                assert(tail[idx - head.len()] == line);
                assert(should_print_v(last, directory) && line == joined(full, last.name@));
                assert(entries[entries.len() - 1] == last);
            }
        }
        if exists|k: int|
            0 <= k < entries.len() && should_print_v(#[trigger] entries[k], directory) && line
                == joined(full, entries[k].name@) {
            let k = choose|k: int|
                0 <= k < entries.len() && should_print_v(#[trigger] entries[k], directory) && line
                    == joined(full, entries[k].name@);
            if k < entries.len() - 1 {
                assert(rest[k] == entries[k]);
                assert(head.contains(line));
                lemma_contains_concat_left(head, tail, line);
            } else {
                assert(last == entries[k]);
                assert(tail[0] == line);
                lemma_contains_concat_right(head, tail, line);
            }
        }
    }
}

/// Equal concatenations with the same left part have equal right parts.
pub proof fn lemma_concat_cancel_left(p: Seq<char>, a: Seq<char>, b: Seq<char>)
    requires
        p + a == p + b,
    ensures
        a == b,
{
    assert((p + a).len() == p.len() + a.len());
    assert((p + b).len() == p.len() + b.len());
    assert(a.len() == b.len());
    assert forall|i: int| 0 <= i < a.len() implies a[i] == b[i] by {
        assert((p + a)[p.len() + i] == a[i]);
        assert((p + b)[p.len() + i] == b[i]);
    }
    assert(a =~= b);
}

/// Joining the same base with two segments that are not absolute gives the
/// same result only for the same segment.
pub proof fn lemma_joined_cancel(full: Seq<char>, a: Seq<char>, b: Seq<char>)
    requires
        a.len() == 0 || a[0] != '/',
        b.len() == 0 || b[0] != '/',
        joined(full, a) == joined(full, b),
    ensures
        a == b,
{
    if full.len() == 0 {
    } else if full[full.len() - 1] == '/' {
        lemma_concat_cancel_left(full, a, b);
    } else {
        assert((full + seq!['/']) + a =~= full + seq!['/'] + a);
        assert((full + seq!['/']) + b =~= full + seq!['/'] + b);
        lemma_concat_cancel_left(full + seq!['/'], a, b);
    }
}

/// Exclusion and dispatch agree: a name handed to one of the sub-directory
/// specifications never shows among the generic lines; such a child is
/// reached only through the recursive walk of that specification, which
/// applies the specification's own filters.
pub proof fn lemma_no_double_emission(
    entries: Seq<FsEntry>,
    directory: Directory,
    full: Seq<char>,
    j: int,
)
    requires
        0 <= j < directory.sub_directories@.len(),
        forall|k: int|
            0 <= k < entries.len() ==> (#[trigger] entries[k]).name@.len() == 0
                || entries[k].name@[0] != '/',
        directory.sub_directories@[j].path@.len() == 0 || directory.sub_directories@[j].path@[0]
            != '/',
    ensures
        !generic_lines(entries, directory, full).contains(
            joined(full, directory.sub_directories@[j].path@),
        ),
{
    let name = directory.sub_directories@[j].path@;
    let target = joined(full, name);
    if generic_lines(entries, directory, full).contains(target) {
        lemma_generic_lines_iff(entries, directory, full, target);
        let k = choose|k: int|
            0 <= k < entries.len() && should_print_v(#[trigger] entries[k], directory) && target
                == joined(full, entries[k].name@);
        lemma_joined_cancel(full, entries[k].name@, name);
        assert((directory.sub_directories@[j]).path@ == entries[k].name@);
        assert(is_sub_name(directory.sub_directories@, entries[k].name@));
        assert(false);
    }
}

/// Every line of a successful branch stands in the combined output: a
/// failure in one top-level branch never costs another branch its lines.
pub proof fn lemma_branch_lines_survive(
    directories: Seq<Directory>,
    i: int,
    k: int,
    fs: FsSnapshot,
    home: Option<Seq<char>>,
    line: Seq<char>,
)
    requires
        0 <= i <= k < directories.len(),
        walk_v(directories[k], Seq::empty(), fs, home) matches Some(lines) && lines.contains(line),
    ensures
        all_projects_v(directories, i, fs, home).contains(line),
    decreases k - i,
{
    let head = match walk_v(directories[i], Seq::empty(), fs, home) {
        Some(lines) => lines,
        None => Seq::<Seq<char>>::empty(),
    };
    let rest = all_projects_v(directories, i + 1, fs, home);
    if i == k {
        lemma_contains_concat_left(head, rest, line);
    } else {
        lemma_branch_lines_survive(directories, i + 1, k, fs, home, line);
        lemma_contains_concat_right(head, rest, line);
    }
}

} // verus!
