//! Where the binary is installed: the names and directories an earlier
//! install could be under, where a new one goes, and what counts as the
//! tools directory an uninstall may offer to delete.
//!
//! What is on disk (whether a file exists, what a path resolves to through
//! symlinks) is looked up by the caller and handed in; everything decided
//! from it is here.

use vstd::prelude::*;

use crate::paths;
use crate::paths::{components_vec, join_str, render_vec, same_path_vec};
use crate::text;
use crate::text::{chars_of, slice_vec, split_on_vec, string_from_str, string_of, vec_eq_str};

verus! {

/// The name to install under when nothing is installed yet. The README, the
/// systemd instances and every hint string use it.
pub const DEFAULT_NAME: &'static str = "ttspotify";

/// The names an earlier install could be under: the documented one, the one
/// Cargo builds, and the program's own name when it is neither.
pub open spec fn known_names_for(program: Seq<char>) -> Seq<Seq<char>> {
    let base = seq!["ttspotify"@, "tt-spotify-bot"@];
    if program == "ttspotify"@ || program == "tt-spotify-bot"@ {
        base
    } else {
        base.push(program)
    }
}

/// Names an existing install could be sitting under: the documented one, the
/// one Cargo builds, and whatever this copy is currently called.
pub fn known_names(program: &str) -> (r: Vec<String>)
    ensures
        crate::config::string_views(r@) == known_names_for(program@),
{
    let mut names: Vec<String> = Vec::new();
    names.push(string_from_str("ttspotify"));
    names.push(string_from_str("tt-spotify-bot"));
    let p = chars_of(program);
    let repeated = vec_eq_str(&p, "ttspotify") || vec_eq_str(&p, "tt-spotify-bot");
    if !repeated {
        names.push(string_from_str(program));
    }
    proof {
        let views = crate::config::string_views(names@);
        if repeated {
            assert(views =~= known_names_for(program@));
        } else {
            assert(views =~= known_names_for(program@));
        }
    }
    names
}

/// The names searched always include the program's own name and never name
/// the same file twice.
pub proof fn lemma_known_names_cover_without_repeats(program: Seq<char>)
    ensures
        known_names_for(program).contains(program),
        forall|i: int, j: int|
            0 <= i < j < known_names_for(program).len() ==> known_names_for(program)[i]
                != known_names_for(program)[j],
{
    reveal_strlit("ttspotify");
    reveal_strlit("tt-spotify-bot");
    let n = known_names_for(program);
    assert("ttspotify"@ != "tt-spotify-bot"@) by {
        assert("ttspotify"@.len() != "tt-spotify-bot"@.len());
    }
    if program == "ttspotify"@ {
        assert(n[0] == program);
    } else if program == "tt-spotify-bot"@ {
        assert(n[1] == program);
    } else {
        assert(n[2] == program);
    }
}

/// The absolute entries of a list of `PATH` entries, in order.
pub open spec fn absolute_entries(entries: Seq<Seq<char>>) -> Seq<Seq<char>>
    decreases entries.len(),
{
    if entries.len() == 0 {
        seq![]
    } else {
        let rest = absolute_entries(entries.drop_last());
        if paths::is_absolute(entries.last()) {
            rest.push(entries.last())
        } else {
            rest
        }
    }
}

/// The per-user install directory under a home directory.
pub open spec fn user_bin(home: Seq<char>) -> Seq<char> {
    paths::join(home, ".local/bin"@)
}

/// Every directory worth searching for an earlier install, before removing
/// repeats: the absolute `PATH` entries in order, then `~/.local/bin`,
/// `/usr/local/bin` and `/usr/bin`.
pub open spec fn search_list(path_env: Seq<char>, home: Seq<char>) -> Seq<Seq<char>> {
    absolute_entries(text::split_on(path_env, ':')) + seq![
        user_bin(home),
        "/usr/local/bin"@,
        "/usr/bin"@,
    ]
}

/// Directories worth searching for an earlier install, repeats included:
/// everything absolute on `PATH`, then the usual install locations. A
/// relative entry (`.`, or anything not rooted) means a different directory
/// depending on where the command runs, so it is left out. A copy in
/// `/usr/local/bin` matters even when `PATH` does not mention it: it is
/// exactly the copy an old unit file points at.
pub fn search_dirs(path_env: &str, home: &str) -> (r: Vec<String>)
    ensures
        crate::config::string_views(r@) == search_list(path_env@, home@),
{
    let entries = split_on_vec(&chars_of(path_env), ':');
    let ghost ev = text::views(entries@);
    let mut out: Vec<String> = Vec::new();
    let mut i: usize = 0;
    while i < entries.len()
        invariant
            i <= entries.len(),
            ev == text::views(entries@),
            ev == text::split_on(path_env@, ':'),
            crate::config::string_views(out@) == absolute_entries(ev.subrange(0, i as int)),
        decreases entries.len() - i,
    {
        let ghost before = crate::config::string_views(out@);
        let ghost sub = ev.subrange(0, i as int + 1);
        proof {
            assert(sub.drop_last() =~= ev.subrange(0, i as int));
            assert(sub.last() == entries@[i as int]@);
        }
        if entries[i].len() > 0 && entries[i][0] == '/' {
            out.push(string_of(&entries[i]));
            proof {
                assert(crate::config::string_views(out@) =~= before.push(entries@[i as int]@));
            }
        }
        i = i + 1;
    }
    proof {
        assert(ev.subrange(0, entries.len() as int) =~= ev);
    }
    let ghost abs = crate::config::string_views(out@);
    let local = join_str(&chars_of(home), ".local/bin");
    out.push(string_of(&local));
    out.push(string_from_str("/usr/local/bin"));
    out.push(string_from_str("/usr/bin"));
    proof {
        assert(crate::config::string_views(out@) =~= search_list(path_env@, home@));
    }
    out
}

/// Whether two paths name the same thing on disk: their resolved forms
/// compared when both resolve, the paths as written otherwise.
pub open spec fn same_dir_as(
    a: Seq<char>,
    b: Seq<char>,
    resolved_a: Option<Seq<char>>,
    resolved_b: Option<Seq<char>>,
) -> bool {
    match (resolved_a, resolved_b) {
        (Some(x), Some(y)) => paths::same_path(x, y),
        _ => paths::same_path(a, b),
    }
}

/// Whether two paths name the same thing on disk. `resolved_a` and
/// `resolved_b` are what each resolves to through symlinks (`canonicalize`),
/// `None` where that failed; then the paths are compared as written.
pub fn same_dir(a: &str, b: &str, resolved_a: Option<&str>, resolved_b: Option<&str>) -> (r: bool)
    ensures
        r == same_dir_as(
            a@,
            b@,
            match resolved_a {
                Some(x) => Some(x@),
                None => None,
            },
            match resolved_b {
                Some(x) => Some(x@),
                None => None,
            },
        ),
{
    match (resolved_a, resolved_b) {
        (Some(x), Some(y)) => same_path_vec(&chars_of(x), &chars_of(y)),
        _ => same_path_vec(&chars_of(a), &chars_of(b)),
    }
}

/// A directory with what it resolves to, as character sequences.
pub open spec fn found_view(d: (String, Option<String>)) -> (Seq<char>, Option<Seq<char>>) {
    (d.0@, text::opt_chars(d.1))
}

/// The directories kept from a list: each one that is not empty and not the
/// same directory as one kept before it.
pub open spec fn kept_dirs(found: Seq<(Seq<char>, Option<Seq<char>>)>) -> Seq<
    (Seq<char>, Option<Seq<char>>),
>
    decreases found.len(),
{
    if found.len() == 0 {
        seq![]
    } else {
        let kept = kept_dirs(found.drop_last());
        let d = found.last();
        if d.0.len() == 0 || seen_in(kept, d) {
            kept
        } else {
            kept.push(d)
        }
    }
}

/// The kept directories come from the list, in its order, and no kept
/// directory is the same directory as one kept before it: one install is
/// never reported as two.
pub proof fn lemma_kept_dirs_distinct(found: Seq<(Seq<char>, Option<Seq<char>>)>)
    ensures
        forall|i: int, j: int|
            0 <= i < j < kept_dirs(found).len() ==> !same_dir_as(
                #[trigger] kept_dirs(found)[i].0,
                #[trigger] kept_dirs(found)[j].0,
                kept_dirs(found)[i].1,
                kept_dirs(found)[j].1,
            ),
        forall|i: int| 0 <= i < kept_dirs(found).len() ==> found.contains(#[trigger] kept_dirs(found)[i]),
        forall|i: int| 0 <= i < kept_dirs(found).len() ==> (#[trigger] kept_dirs(found)[i]).0.len() > 0,
    decreases found.len(),
{
    if found.len() > 0 {
        let front = found.drop_last();
        lemma_kept_dirs_distinct(front);
        let kept = kept_dirs(front);
        assert forall|i: int| 0 <= i < kept.len() implies found.contains(#[trigger] kept[i]) by {
            let w = choose|w: int| 0 <= w < front.len() && front[w] == kept[i];
            assert(found[w] == kept[i]);
        }
        assert(found[found.len() - 1] == found.last());
    }
}

fn resolved_str(o: &Option<String>) -> (r: Option<&str>)
    ensures
        match r {
            Some(x) => *o matches Some(s) && x@ == s@,
            None => *o is None,
        },
{
    match o {
        Some(s) => Some(s.as_str()),
        None => None,
    }
}

/// Directories to search, repeats removed: each of `found` (a directory and
/// what it resolves to) is kept unless it is empty or the same directory as
/// one already kept. Merged-`/usr` systems list both `/usr/bin` and `/bin`,
/// which are one directory behind a symlink; counting them twice would report
/// one install as two.
pub fn candidate_dirs(found: &[(String, Option<String>)]) -> (r: Vec<String>)
    ensures
        crate::config::string_views(r@) == kept_dirs(found@.map_values(|d| found_view(d))).map_values(
            |d: (Seq<char>, Option<Seq<char>>)| d.0,
        ),
{
    let ghost fv = found@.map_values(|d| found_view(d));
    let mut kept: Vec<(String, Option<String>)> = Vec::new();
    let mut i: usize = 0;
    while i < found.len()
        invariant
            i <= found.len(),
            fv == found@.map_values(|d| found_view(d)),
            kept@.map_values(|d| found_view(d)) == kept_dirs(fv.subrange(0, i as int)),
        decreases found.len() - i,
    {
        let ghost kv = kept@.map_values(|d| found_view(d));
        let ghost sub = fv.subrange(0, i as int + 1);
        proof {
            assert(sub.drop_last() =~= fv.subrange(0, i as int));
            assert(sub.last() == fv[i as int]);
            assert(fv[i as int] == found_view(found@[i as int]));
        }
        let d = &found[i];
        let repeat = d.0.as_str().unicode_len() == 0 || already_seen(&kept, d);
        if !repeat {
            let resolved: Option<String> = match &d.1 {
                Some(x) => Some(x.clone()),
                None => None,
            };
            kept.push((d.0.clone(), resolved));
            proof {
                assert(kept@.map_values(|d| found_view(d)) =~= kv.push(fv[i as int]));
            }
        }
        i = i + 1;
    }
    proof {
        assert(fv.subrange(0, found.len() as int) =~= fv);
    }
    first_parts(&kept)
}

/// Whether `d` is the same directory or file as one of `kept`.
pub open spec fn seen_in(
    kept: Seq<(Seq<char>, Option<Seq<char>>)>,
    d: (Seq<char>, Option<Seq<char>>),
) -> bool {
    exists|k: int| 0 <= k < kept.len() && same_dir_as(#[trigger] kept[k].0, d.0, kept[k].1, d.1)
}

/// Whether `d` is the same as one of `kept`, each with what it resolves to.
fn already_seen(kept: &Vec<(String, Option<String>)>, d: &(String, Option<String>)) -> (r: bool)
    ensures
        r == seen_in(kept@.map_values(|x| found_view(x)), found_view(*d)),
{
    let ghost kv = kept@.map_values(|x| found_view(x));
    let ghost dv = found_view(*d);
    let mut j: usize = 0;
    while j < kept.len()
        invariant
            j <= kept.len(),
            kv == kept@.map_values(|x| found_view(x)),
            dv == found_view(*d),
            forall|k: int| 0 <= k < j ==> !same_dir_as(#[trigger] kv[k].0, dv.0, kv[k].1, dv.1),
        decreases kept.len() - j,
    {
        let k = &kept[j];
        let ra = resolved_str(&k.1);
        let rb = resolved_str(&d.1);
        proof {
            assert(kv[j as int] == found_view(kept@[j as int]));
            assert(kv[j as int].0 == k.0@);
            assert(kv[j as int].1 == match ra {
                Some(x) => Some(x@),
                None => None::<Seq<char>>,
            });
            assert(dv.1 == match rb {
                Some(x) => Some(x@),
                None => None::<Seq<char>>,
            });
        }
        if same_dir(k.0.as_str(), d.0.as_str(), ra, rb) {
            return true;
        }
        j = j + 1;
    }
    false
}

/// The paths of a list of paths with what they resolve to.
fn first_parts(kept: &Vec<(String, Option<String>)>) -> (out: Vec<String>)
    ensures
        crate::config::string_views(out@) == kept@.map_values(|d| found_view(d)).map_values(
            |d: (Seq<char>, Option<Seq<char>>)| d.0,
        ),
{
    let ghost km = kept@.map_values(|d| found_view(d));
    let mut out: Vec<String> = Vec::new();
    let mut m: usize = 0;
    while m < kept.len()
        invariant
            m <= kept.len(),
            km == kept@.map_values(|d| found_view(d)),
            crate::config::string_views(out@) == km.subrange(0, m as int).map_values(
                |d: (Seq<char>, Option<Seq<char>>)| d.0,
            ),
        decreases kept.len() - m,
    {
        let ghost before = crate::config::string_views(out@);
        let x = kept[m].0.clone();
        proof {
            assert(km[m as int] == found_view(kept@[m as int]));
        }
        out.push(x);
        m = m + 1;
        proof {
            assert(crate::config::string_views(out@) =~= before.push(x@));
            assert(km.subrange(0, m as int).map_values(|d: (Seq<char>, Option<Seq<char>>)| d.0)
                =~= km.subrange(0, m - 1).map_values(|d: (Seq<char>, Option<Seq<char>>)| d.0).push(
                x@,
            ));
        }
    }
    proof {
        assert(km.subrange(0, kept.len() as int) =~= km);
    }
    out
}

/// The copies kept from the files found, in order: each that is neither the
/// copy running (`source`) nor the same file as one kept before it.
pub open spec fn kept_copies(
    files: Seq<(Seq<char>, Option<Seq<char>>)>,
    source: Option<(Seq<char>, Option<Seq<char>>)>,
) -> Seq<(Seq<char>, Option<Seq<char>>)>
    decreases files.len(),
{
    if files.len() == 0 {
        seq![]
    } else {
        let kept = kept_copies(files.drop_last(), source);
        let f = files.last();
        if (source matches Some(s) && same_dir_as(s.0, f.0, s.1, f.1)) || seen_in(kept, f) {
            kept
        } else {
            kept.push(f)
        }
    }
}

/// No copy is reported twice, none is the copy running, and each is one of
/// the files found: two spellings of one file (`/usr/bin` and `/bin`) are one
/// install, and the copy being installed from is the source, not a rival.
pub proof fn lemma_kept_copies_distinct(
    files: Seq<(Seq<char>, Option<Seq<char>>)>,
    source: Option<(Seq<char>, Option<Seq<char>>)>,
)
    ensures
        forall|i: int, j: int|
            0 <= i < j < kept_copies(files, source).len() ==> !same_dir_as(
                #[trigger] kept_copies(files, source)[i].0,
                #[trigger] kept_copies(files, source)[j].0,
                kept_copies(files, source)[i].1,
                kept_copies(files, source)[j].1,
            ),
        forall|i: int|
            0 <= i < kept_copies(files, source).len() ==> files.contains(
                #[trigger] kept_copies(files, source)[i],
            ),
        forall|i: int|
            #![trigger kept_copies(files, source)[i]]
            0 <= i < kept_copies(files, source).len() ==> (source matches Some(s) ==> !same_dir_as(
                s.0,
                kept_copies(files, source)[i].0,
                s.1,
                kept_copies(files, source)[i].1,
            )),
    decreases files.len(),
{
    if files.len() > 0 {
        let front = files.drop_last();
        lemma_kept_copies_distinct(front, source);
        let kept = kept_copies(front, source);
        assert forall|i: int| 0 <= i < kept.len() implies files.contains(#[trigger] kept[i]) by {
            let w = choose|w: int| 0 <= w < front.len() && front[w] == kept[i];
            assert(files[w] == kept[i]);
        }
        assert(files[files.len() - 1] == files.last());
    }
}

/// Copies of the bot already installed, in the order found. `files` are the
/// files that exist under each known name in each candidate directory, in
/// directory order, each with what it resolves to; `source` is the copy
/// running, when it is to be left out.
pub fn find_existing(
    files: &[(String, Option<String>)],
    source: Option<&(String, Option<String>)>,
) -> (r: Vec<String>)
    ensures
        crate::config::string_views(r@) == kept_copies(
            files@.map_values(|d| found_view(d)),
            match source {
                Some(s) => Some(found_view(*s)),
                None => None,
            },
        ).map_values(|d: (Seq<char>, Option<Seq<char>>)| d.0),
{
    let ghost fv = files@.map_values(|d| found_view(d));
    let ghost sv = match source {
        Some(s) => Some(found_view(*s)),
        None => None::<(Seq<char>, Option<Seq<char>>)>,
    };
    let mut kept: Vec<(String, Option<String>)> = Vec::new();
    let mut i: usize = 0;
    while i < files.len()
        invariant
            i <= files.len(),
            fv == files@.map_values(|d| found_view(d)),
            sv == match source {
                Some(s) => Some(found_view(*s)),
                None => None::<(Seq<char>, Option<Seq<char>>)>,
            },
            kept@.map_values(|d| found_view(d)) == kept_copies(fv.subrange(0, i as int), sv),
        decreases files.len() - i,
    {
        let ghost kv = kept@.map_values(|d| found_view(d));
        let ghost sub = fv.subrange(0, i as int + 1);
        proof {
            assert(sub.drop_last() =~= fv.subrange(0, i as int));
            assert(sub.last() == fv[i as int]);
            assert(fv[i as int] == found_view(files@[i as int]));
        }
        let d = &files[i];
        let is_source = match source {
            Some(s) => same_dir(
                s.0.as_str(),
                d.0.as_str(),
                resolved_str(&s.1),
                resolved_str(&d.1),
            ),
            None => false,
        };
        let seen = already_seen(&kept, d);
        if !is_source && !seen {
            let resolved: Option<String> = match &d.1 {
                Some(x) => Some(x.clone()),
                None => None,
            };
            kept.push((d.0.clone(), resolved));
            proof {
                assert(kept@.map_values(|d| found_view(d)) =~= kv.push(fv[i as int]));
            }
        }
        i = i + 1;
    }
    proof {
        assert(fv.subrange(0, files.len() as int) =~= fv);
    }
    first_parts(&kept)
}

/// Whether a `PATH` value lists a directory: some non-empty entry is that
/// path, component for component.
pub open spec fn lists_dir(path_env: Seq<char>, dir: Seq<char>) -> bool {
    let entries = text::split_on(path_env, ':');
    exists|i: int|
        0 <= i < entries.len() && (#[trigger] entries[i]).len() > 0 && paths::same_path(
            entries[i],
            dir,
        )
}

/// Whether `PATH` already lists this directory, so the install can say "and
/// you'll need this on your PATH" only when it is true. Entries are compared
/// as paths, never as substrings.
pub fn path_lists_dir(path_env: &str, dir: &str) -> (r: bool)
    ensures
        r == lists_dir(path_env@, dir@),
{
    let entries = split_on_vec(&chars_of(path_env), ':');
    let ghost ev = text::views(entries@);
    let d = chars_of(dir);
    let mut i: usize = 0;
    while i < entries.len()
        invariant
            i <= entries.len(),
            ev == text::views(entries@),
            ev == text::split_on(path_env@, ':'),
            d@ == dir@,
            forall|k: int|
                0 <= k < i ==> !((#[trigger] ev[k]).len() > 0 && paths::same_path(ev[k], dir@)),
        decreases entries.len() - i,
    {
        assert(ev[i as int] == entries@[i as int]@);
        if entries[i].len() > 0 && same_path_vec(&entries[i], &d) {
            return true;
        }
        i = i + 1;
    }
    false
}

/// Where a new install goes: over the first existing copy when there is one,
/// otherwise `~/.local/bin/ttspotify`, which needs no sudo.
pub open spec fn destination_for(existing: Seq<Seq<char>>, home: Seq<char>) -> Seq<char> {
    if existing.len() > 0 {
        existing[0]
    } else {
        paths::join(user_bin(home), "ttspotify"@)
    }
}

/// An install goes over the first copy found, in search order, whenever one
/// was found; only when none was does it go to `~/.local/bin`.
pub proof fn lemma_destination_is_first_copy(existing: Seq<Seq<char>>, home: Seq<char>)
    ensures
        existing.len() > 0 ==> destination_for(existing, home) == existing[0],
        existing.len() == 0 ==> destination_for(existing, home) == paths::join(
            paths::join(home, ".local/bin"@),
            "ttspotify"@,
        ),
{
}

/// Where to install: over an existing copy when there is one, otherwise
/// `~/.local/bin`, which needs no sudo.
pub fn destination(existing: &[String], home: &str) -> (r: String)
    ensures
        r@ == destination_for(crate::config::string_views(existing@), home@),
{
    if existing.len() > 0 {
        existing[0].clone()
    } else {
        let local = join_str(&chars_of(home), ".local/bin");
        string_of(&join_str(&local, DEFAULT_NAME))
    }
}

/// The components of a path's parent, from the path's own components.
pub open spec fn parent_of(c: Seq<Seq<char>>) -> Option<Seq<Seq<char>>> {
    if c.len() > 0 && c.last() != seq!['/'] {
        Some(c.drop_last())
    } else {
        None
    }
}

/// The file name of a path, from its components.
pub open spec fn name_of(c: Seq<Seq<char>>) -> Option<Seq<char>> {
    if c.len() > 0 && paths::is_name(c.last()) {
        Some(c.last())
    } else {
        None
    }
}

/// A binary `cargo build` produced: it sits in a `debug` or `release`
/// directory directly under a `target` directory.
pub open spec fn cargo_build(src: Seq<char>) -> bool {
    match parent_of(paths::components(src)) {
        Some(p) => {
            &&& (name_of(p) == Some("debug"@) || name_of(p) == Some("release"@))
            &&& match parent_of(p) {
                Some(g) => name_of(g) == Some("target"@),
                None => false,
            }
        },
        None => false,
    }
}

fn name_of_vec(c: &Vec<Vec<char>>) -> (r: Option<Vec<char>>)
    ensures
        match r {
            Some(n) => name_of(text::views(c@)) == Some(n@),
            None => name_of(text::views(c@)) is None,
        },
{
    if c.len() == 0 {
        return None;
    }
    let last = &c[c.len() - 1];
    proof {
        assert(text::views(c@).last() == last@);
    }
    if vec_eq_str(last, "/") || vec_eq_str(last, ".") || vec_eq_str(last, "..") {
        proof {
            reveal_strlit("/");
            reveal_strlit(".");
            reveal_strlit("..");
            assert("/"@ =~= seq!['/']);
            assert("."@ =~= seq!['.']);
            assert(".."@ =~= seq!['.', '.']);
        }
        None
    } else {
        proof {
            reveal_strlit("/");
            reveal_strlit(".");
            reveal_strlit("..");
            assert("/"@ =~= seq!['/']);
            assert("."@ =~= seq!['.']);
            assert(".."@ =~= seq!['.', '.']);
        }
        Some(slice_vec(last, 0, last.len()))
    }
}

fn parent_of_vec(c: &Vec<Vec<char>>) -> (r: Option<Vec<Vec<char>>>)
    ensures
        match r {
            Some(p) => parent_of(text::views(c@)) == Some(text::views(p@)),
            None => parent_of(text::views(c@)) is None,
        },
{
    if c.len() == 0 {
        return None;
    }
    let last = &c[c.len() - 1];
    proof {
        assert(text::views(c@).last() == last@);
        reveal_strlit("/");
        assert("/"@ =~= seq!['/']);
    }
    if vec_eq_str(last, "/") {
        return None;
    }
    let mut p: Vec<Vec<char>> = Vec::new();
    let mut i: usize = 0;
    while i + 1 < c.len()
        invariant
            i + 1 <= c.len(),
            text::views(p@) == text::views(c@).subrange(0, i as int),
        decreases c.len() - i,
    {
        let ghost before = text::views(p@);
        let piece = slice_vec(&c[i], 0, c[i].len());
        proof {
            assert(piece@ =~= c@[i as int]@);
        }
        p.push(piece);
        proof {
            assert(text::views(p@) =~= before.push(c@[i as int]@));
            assert(text::views(c@).subrange(0, i as int + 1) =~= text::views(c@).subrange(
                0,
                i as int,
            ).push(c@[i as int]@));
        }
        i = i + 1;
    }
    proof {
        assert(text::views(c@).drop_last() =~= text::views(c@).subrange(0, i as int));
    }
    Some(p)
}

/// Whether this binary is one `cargo build` just produced.
///
/// Without this check, `cargo run` would offer to install itself on every
/// first run during development, which is nobody's idea of helpful.
pub fn is_cargo_build(src: &str) -> (r: bool)
    ensures
        r == cargo_build(src@),
{
    let c = components_vec(&chars_of(src));
    match parent_of_vec(&c) {
        None => false,
        Some(p) => {
            let profile = match name_of_vec(&p) {
                Some(n) => vec_eq_str(&n, "debug") || vec_eq_str(&n, "release"),
                None => false,
            };
            let under_target = match parent_of_vec(&p) {
                Some(g) => match name_of_vec(&g) {
                    Some(n) => vec_eq_str(&n, "target"),
                    None => false,
                },
                None => false,
            };
            profile && under_target
        },
    }
}

/// The directory that holds the YouTube tools and nothing else: the parent of
/// the tools' `lib` directory when that parent is our own `ttspotify` data
/// directory, the `lib` directory itself otherwise.
pub open spec fn tools_root_of(lib_dir: Seq<char>) -> Seq<char> {
    match parent_of(paths::components(lib_dir)) {
        Some(p) => if name_of(p) == Some("ttspotify"@) {
            paths::render(p)
        } else {
            lib_dir
        },
        None => lib_dir,
    }
}

/// The directory that holds the YouTube tools and nothing else.
///
/// They live in `<data>/ttspotify/lib` when we installed them, and in
/// `<exe-dir>/lib` on older installs and when there is no data directory to
/// use. Taking the parent unconditionally would, for the second layout, offer
/// to delete whatever directory the binary sits in.
pub fn tools_root(lib_dir: &str) -> (r: String)
    ensures
        r@ == tools_root_of(lib_dir@),
{
    let c = components_vec(&chars_of(lib_dir));
    match parent_of_vec(&c) {
        Some(p) => {
            let ours = match name_of_vec(&p) {
                Some(n) => vec_eq_str(&n, "ttspotify"),
                None => false,
            };
            if ours {
                string_of(&render_vec(&p))
            } else {
                string_from_str(lib_dir)
            }
        },
        None => string_from_str(lib_dir),
    }
}

/// Whether a path's parent is, as a path, one of `dirs`.
pub open spec fn parent_listed(src: Seq<char>, dirs: Seq<Seq<char>>) -> bool {
    match parent_of(paths::components(src)) {
        Some(p) => exists|k: int| 0 <= k < dirs.len() && paths::components(#[trigger] dirs[k]) == p,
        None => false,
    }
}

/// Whether this copy is running from one of the directories installs go to,
/// which makes it an installed copy without looking any further.
pub fn runs_from_install_dir(src: &str, dirs: &[String]) -> (r: bool)
    ensures
        r == parent_listed(src@, crate::config::string_views(dirs@)),
{
    let c = components_vec(&chars_of(src));
    let ghost dv = crate::config::string_views(dirs@);
    match parent_of_vec(&c) {
        None => false,
        Some(p) => {
            let mut i: usize = 0;
            while i < dirs.len()
                invariant
                    i <= dirs.len(),
                    dv == crate::config::string_views(dirs@),
                    parent_of(paths::components(src@)) == Some(text::views(p@)),
                    forall|k: int|
                        0 <= k < i ==> paths::components(#[trigger] dv[k]) != text::views(p@),
                decreases dirs.len() - i,
            {
                let dc = components_vec(&chars_of(dirs[i].as_str()));
                assert(dv[i as int] == dirs@[i as int]@);
                if crate::paths::components_eq(&dc, &p) {
                    return true;
                }
                i = i + 1;
            }
            false
        },
    }
}

} // verus!
