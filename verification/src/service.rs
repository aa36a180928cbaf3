//! The systemd user unit that runs bots as services: writing it, reading
//! back what an installed one runs, bringing an old one up to date, and
//! reading what `systemctl` says about the instances.

use vstd::prelude::*;

use crate::paths;
use crate::paths::{join_str, same_path_vec};
use crate::text;
use crate::text::{
    append_seq, append_str, chars_of, decimal_vec, ends_with_str, first_word_vec, lines_vec,
    parse_unsigned_vec, replace_vec, slice_vec, split_once_vec, starts_with_str, string_from_str,
    string_of, trim_vec, vec_eq, vec_eq_str,
};

verus! {

/// Version of the generated unit file's content. Files without a stamp read
/// as 0, older than any version.
pub const UNIT_FILE_VERSION: u32 = 6;

/// The template's file name; its instances are `ttspotify@<name>.service`.
pub open spec fn template_unit() -> Seq<char> {
    "ttspotify@.service"@
}

// ---------------------------------------------------------------------------
// Reading an installed unit
// ---------------------------------------------------------------------------

/// The rest of the first line that starts with `p`, if any.
pub open spec fn first_stripped(ls: Seq<Seq<char>>, p: Seq<char>) -> Option<Seq<char>>
    decreases ls.len(),
{
    if ls.len() == 0 {
        None
    } else if text::starts_with(ls[0], p) {
        Some(ls[0].subrange(p.len() as int, ls[0].len() as int))
    } else {
        first_stripped(ls.drop_first(), p)
    }
}

/// Every line, trimmed.
pub open spec fn trim_each(ls: Seq<Seq<char>>) -> Seq<Seq<char>> {
    ls.map_values(|l: Seq<char>| text::trim(l))
}

fn first_stripped_vec(ls: &Vec<Vec<char>>, p: &Vec<char>) -> (r: Option<Vec<char>>)
    ensures
        match r {
            Some(v) => first_stripped(text::views(ls@), p@) == Some(v@),
            None => first_stripped(text::views(ls@), p@) is None,
        },
{
    let ghost all = text::views(ls@);
    let mut i: usize = 0;
    assert(all.subrange(0, all.len() as int) =~= all);
    while i < ls.len()
        invariant
            i <= ls.len(),
            all == text::views(ls@),
            first_stripped(all, p@) == first_stripped(all.subrange(i as int, all.len() as int), p@),
        decreases ls.len() - i,
    {
        let ghost rest = all.subrange(i as int, all.len() as int);
        assert(rest[0] == ls@[i as int]@);
        if crate::text::starts_with_vec(&ls[i], p) {
            return Some(slice_vec(&ls[i], p.len(), ls[i].len()));
        }
        assert(rest.drop_first() =~= all.subrange(i + 1, all.len() as int));
        i = i + 1;
    }
    None
}

pub fn trim_each_lines(ls: &Vec<Vec<char>>) -> (r: Vec<Vec<char>>)
    ensures
        text::views(r@) == trim_each(text::views(ls@)),
{
    let mut out: Vec<Vec<char>> = Vec::new();
    let mut i: usize = 0;
    while i < ls.len()
        invariant
            i <= ls.len(),
            text::views(out@) == trim_each(text::views(ls@)).subrange(0, i as int),
        decreases ls.len() - i,
    {
        let ghost before = text::views(out@);
        let t = trim_vec(&ls[i]);
        let ghost tv = t@;
        out.push(t);
        proof {
            assert(text::views(out@) =~= before.push(tv));
            assert(trim_each(text::views(ls@)).subrange(0, i + 1) =~= trim_each(
                text::views(ls@),
            ).subrange(0, i as int).push(tv));
        }
        i = i + 1;
    }
    assert(trim_each(text::views(ls@)).subrange(0, ls.len() as int) =~= trim_each(
        text::views(ls@),
    ));
    out
}

pub open spec fn stamp_prefix() -> Seq<char> {
    "# ttspotify-unit-version: "@
}

/// The version stamp in a unit file's contents: the number on the first
/// stamp line, or 0 when there is none or it is not a number.
pub open spec fn unit_version(contents: Seq<char>) -> u32 {
    match first_stripped(text::lines(contents), stamp_prefix()) {
        Some(v) => match text::parse_unsigned(text::trim(v), u32::MAX as int) {
            Some(n) => n as u32,
            None => 0,
        },
        None => 0,
    }
}

/// Read the version stamp out of a unit file's contents.
pub fn unit_version_from_contents(contents: &str) -> (r: u32)
    ensures
        r == unit_version(contents@),
{
    let ls = lines_vec(&chars_of(contents));
    match first_stripped_vec(&ls, &chars_of("# ttspotify-unit-version: ")) {
        Some(v) => match parse_unsigned_vec(&trim_vec(&v), u32::MAX as u64) {
            Some(n) => n as u32,
            None => 0,
        },
        None => 0,
    }
}

/// `%` doubled, the way systemd reads a literal percent.
pub open spec fn escaped(path: Seq<char>) -> Seq<char> {
    text::replace(path, seq!['%'], seq!['%', '%'])
}

/// `%%` read back as `%`.
pub open spec fn unescaped(path: Seq<char>) -> Seq<char> {
    text::replace(path, seq!['%', '%'], seq!['%'])
}

/// Escape `%` for systemd, which reads it as the start of a specifier.
pub fn escape_specifiers(path: &str) -> (r: String)
    ensures
        r@ == escaped(path@),
{
    let p: Vec<char> = vec!['%'];
    let w: Vec<char> = vec!['%', '%'];
    assert(p@ =~= seq!['%'] && w@ =~= seq!['%', '%']);
    let out = replace_vec(&chars_of(path), &p, &w);
    string_of(&out)
}

/// Undo [`escape_specifiers`], so a path read back out of a unit compares
/// equal to the one on disk.
pub fn unescape_specifiers(path: &str) -> (r: String)
    ensures
        r@ == unescaped(path@),
{
    let p: Vec<char> = vec!['%', '%'];
    let w: Vec<char> = vec!['%'];
    assert(w@ =~= seq!['%'] && p@ =~= seq!['%', '%']);
    let out = replace_vec(&chars_of(path), &p, &w);
    string_of(&out)
}

fn unescape_vec(v: &Vec<char>) -> (r: Vec<char>)
    ensures
        r@ == unescaped(v@),
{
    let p: Vec<char> = vec!['%', '%'];
    let w: Vec<char> = vec!['%'];
    assert(w@ =~= seq!['%'] && p@ =~= seq!['%', '%']);
    replace_vec(v, &p, &w)
}

fn escape_vec(v: &Vec<char>) -> (r: Vec<char>)
    ensures
        r@ == escaped(v@),
{
    let p: Vec<char> = vec!['%'];
    let w: Vec<char> = vec!['%', '%'];
    assert(p@ =~= seq!['%'] && w@ =~= seq!['%', '%']);
    replace_vec(v, &p, &w)
}

/// The value of the first `ExecStart=` line, trimmed.
pub open spec fn exec_start_value(unit: Seq<char>) -> Option<Seq<char>> {
    match first_stripped(trim_each(text::lines(unit)), "ExecStart="@) {
        Some(l) => Some(text::trim(l)),
        None => None,
    }
}

/// The first argument of a command line: the text inside a leading pair of
/// quotes (up to the next quote), or else the first word. Never empty.
pub open spec fn first_argument(line: Seq<char>) -> Option<Seq<char>> {
    if line.len() > 0 && line[0] == '"' {
        let rest = line.drop_first();
        let k = text::index_of(rest, '"');
        let w = if k < 0 {
            rest
        } else {
            rest.subrange(0, k)
        };
        if w.len() == 0 {
            None
        } else {
            Some(w)
        }
    } else {
        text::first_word(line)
    }
}

fn exec_start_value_vec(unit: &str) -> (r: Option<Vec<char>>)
    ensures
        match r {
            Some(v) => exec_start_value(unit@) == Some(v@),
            None => exec_start_value(unit@) is None,
        },
{
    let ls = trim_each_lines(&lines_vec(&chars_of(unit)));
    match first_stripped_vec(&ls, &chars_of("ExecStart=")) {
        Some(l) => Some(trim_vec(&l)),
        None => None,
    }
}

fn first_argument_vec(line: &Vec<char>) -> (r: Option<Vec<char>>)
    ensures
        match r {
            Some(v) => first_argument(line@) == Some(v@),
            None => first_argument(line@) is None,
        },
{
    if line.len() > 0 && line[0] == '"' {
        let rest = slice_vec(line, 1, line.len());
        assert(rest@ =~= line@.drop_first());
        let quote: Vec<char> = vec!['"'];
        assert(quote@ =~= seq!['"']);
        let found = crate::text::find_vec(&rest, &quote);
        proof {
            text::lemma_find_facts(rest@, quote@);
        }
        let w = match found {
            Some(k) => slice_vec(&rest, 0, k),
            None => rest,
        };
        if w.len() == 0 {
            None
        } else {
            Some(w)
        }
    } else {
        first_word_vec(line)
    }
}

/// The binary an installed unit runs, as written in its `ExecStart`, with
/// `%%` read back as `%`.
pub open spec fn exec_binary(unit: Seq<char>) -> Option<Seq<char>> {
    match exec_start_value(unit) {
        Some(line) => match first_argument(line) {
            Some(b) => Some(unescaped(b)),
            None => None,
        },
        None => None,
    }
}

/// The binary an installed unit runs, as written in its `ExecStart`. The
/// quoted form is the one this crate writes; a bare path is read too, for a
/// unit edited by hand.
pub fn exec_start_binary(unit: &str) -> (r: Option<String>)
    ensures
        match r {
            Some(b) => exec_binary(unit@) == Some(b@),
            None => exec_binary(unit@) is None,
        },
{
    match exec_start_value_vec(unit) {
        Some(line) => match first_argument_vec(&line) {
            Some(b) => Some(string_of(&unescape_vec(&b))),
            None => None,
        },
        None => None,
    }
}

/// The `--config` argument an installed unit passes, exactly as written:
/// still escaped, `%I` intact.
pub open spec fn exec_config_arg(unit: Seq<char>) -> Option<Seq<char>> {
    match exec_start_value(unit) {
        Some(line) => match text::split_once(line, "--config"@) {
            Some((_, after)) => first_argument(text::trim_start(after)),
            None => None,
        },
        None => None,
    }
}

fn trim_start_vec(v: &Vec<char>) -> (r: Vec<char>)
    ensures
        r@ == text::trim_start(v@),
{
    let mut i: usize = 0;
    while i < v.len() && crate::text::is_ws_exec(v[i])
        invariant
            i <= v.len(),
            forall|k: int| 0 <= k < i ==> text::is_ws(#[trigger] v@[k]),
        decreases v.len() - i,
    {
        i = i + 1;
    }
    proof {
        text::lemma_trim_start_skip(v@, i as int);
        let rest = v@.subrange(i as int, v.len() as int);
        if i < v.len() {
            assert(rest[0] == v@[i as int]);
        }
        assert(text::trim_start(rest) == rest);
    }
    slice_vec(v, i, v.len())
}

/// The `--config` argument an installed unit passes, or `None` when its
/// `ExecStart` has none.
pub fn exec_start_config_arg(unit: &str) -> (r: Option<String>)
    ensures
        match r {
            Some(a) => exec_config_arg(unit@) == Some(a@),
            None => exec_config_arg(unit@) is None,
        },
{
    match exec_start_value_vec(unit) {
        Some(line) => match split_once_vec(&line, &chars_of("--config")) {
            Some((_, after)) => match first_argument_vec(&trim_start_vec(&after)) {
                Some(a) => Some(string_of(&a)),
                None => None,
            },
            None => None,
        },
        None => None,
    }
}

// ---------------------------------------------------------------------------
// Writing a unit
// ---------------------------------------------------------------------------

/// The `ttspotify@.service` user unit for an `ExecStart` command line, the
/// data directory it works in, and the YouTube tools directory, if any.
/// Every path is written with `%` escaped; the command line is used as given.
pub open spec fn unit_contents(
    exec_start: Seq<char>,
    config_dir: Seq<char>,
    tools_dir: Option<Seq<char>>,
) -> Seq<char> {
    let cd = escaped(config_dir);
    let tools_rw = match tools_dir {
        Some(d) => "ReadWritePaths=-"@ + escaped(d) + "\n"@,
        None => seq![],
    };
    "# ttspotify-unit-version: "@ + text::decimal(6) + "\n[Unit]\nDescription=TTSpotify Bot (%i)\nAfter=network-online.target\nWants=network-online.target\n# A bot that cannot reach its server exits at once, so an unlimited retry is a\n# login attempt every few seconds forever — against someone else's server, and\n# invisible unless you go looking. Five tries in ten minutes, then the unit\n# stops and stays failed, which `status` and `doctor` both report.\nStartLimitIntervalSec=600\nStartLimitBurst=5\n\n[Service]\nType=simple\nWorkingDirectory="@ + cd + "\nExecStart="@ + exec_start + "\nRestart=on-failure\nRestartPreventExitStatus="@ + text::decimal(78)
        + "\nRestartSec=30\n# The bot answers SIGTERM by leaving the TeamTalk channel before it exits, so\n# systemd is asked to wait for that instead of killing it mid-logout.\nTimeoutStopSec=20\n\n# Sandbox: everything is read-only to the bot except the paths below.\n# Using a custom --config path in ExecStart? Add its folder as another\n# ReadWritePaths line. If the service fails to start on a kernel without\n# unprivileged user namespaces, delete this block.\nProtectSystem=strict\nPrivateTmp=true\nNoNewPrivileges=true\nReadWritePaths=-"@ + cd + "\n"@ + tools_rw + "ReadWritePaths=-%h/.local/share/ttspotify\nReadWritePaths=-%h/.cache\n\n[Install]\nWantedBy=default.target\n"@
}

/// Render the `ttspotify@.service` user unit.
pub fn unit_file_contents(exec_start: &str, config_dir: &str, tools_dir: Option<&str>) -> (r: String)
    ensures
        r@ == unit_contents(exec_start@, config_dir@, match tools_dir {
            Some(d) => Some(d@),
            None => None,
        }),
{
    let cd = escape_vec(&chars_of(config_dir));
    let mut tools_rw: Vec<char> = Vec::new();
    match tools_dir {
        Some(d) => {
            append_str(&mut tools_rw, "ReadWritePaths=-");
            append_seq(&mut tools_rw, &escape_vec(&chars_of(d)));
            append_str(&mut tools_rw, "\n");
        },
        None => {},
    }
    let mut v: Vec<char> = Vec::new();
    append_str(&mut v, "# ttspotify-unit-version: ");
    append_seq(&mut v, &decimal_vec(UNIT_FILE_VERSION as u64));
    append_str(&mut v, "\n[Unit]\nDescription=TTSpotify Bot (%i)\nAfter=network-online.target\nWants=network-online.target\n# A bot that cannot reach its server exits at once, so an unlimited retry is a\n# login attempt every few seconds forever — against someone else's server, and\n# invisible unless you go looking. Five tries in ten minutes, then the unit\n# stops and stays failed, which `status` and `doctor` both report.\nStartLimitIntervalSec=600\nStartLimitBurst=5\n\n[Service]\nType=simple\nWorkingDirectory=");
    append_seq(&mut v, &cd);
    append_str(&mut v, "\nExecStart=");
    append_str(&mut v, exec_start);
    append_str(&mut v, "\nRestart=on-failure\nRestartPreventExitStatus=");
    append_seq(&mut v, &decimal_vec(crate::config::EXIT_CONFIG_ERROR as u64));
    append_str(&mut v, "\nRestartSec=30\n# The bot answers SIGTERM by leaving the TeamTalk channel before it exits, so\n# systemd is asked to wait for that instead of killing it mid-logout.\nTimeoutStopSec=20\n\n# Sandbox: everything is read-only to the bot except the paths below.\n# Using a custom --config path in ExecStart? Add its folder as another\n# ReadWritePaths line. If the service fails to start on a kernel without\n# unprivileged user namespaces, delete this block.\nProtectSystem=strict\nPrivateTmp=true\nNoNewPrivileges=true\nReadWritePaths=-");
    append_seq(&mut v, &cd);
    append_str(&mut v, "\n");
    append_seq(&mut v, &tools_rw);
    append_str(&mut v, "ReadWritePaths=-%h/.local/share/ttspotify\nReadWritePaths=-%h/.cache\n\n[Install]\nWantedBy=default.target\n");
    string_of(&v)
}

/// The `ExecStart` command line for a binary and a config folder: both
/// quoted so spaces survive, both escaped, and `%I` (the unescaped instance
/// name, which is the config's file name) appended raw.
pub open spec fn exec_start_for(exe: Seq<char>, config_base: Seq<char>) -> Seq<char> {
    "\""@ + escaped(exe) + "\" --config \""@ + escaped(config_base) + "/%I.json\""@
}

/// The `ExecStart` command line for a binary and a config folder.
pub fn exec_start_line(exe: &str, config_base: &str) -> (r: String)
    ensures
        r@ == exec_start_for(exe@, config_base@),
{
    let mut v: Vec<char> = Vec::new();
    append_str(&mut v, "\"");
    append_seq(&mut v, &escape_vec(&chars_of(exe)));
    append_str(&mut v, "\" --config \"");
    append_seq(&mut v, &escape_vec(&chars_of(config_base)));
    append_str(&mut v, "/%I.json\"");
    string_of(&v)
}

// ---------------------------------------------------------------------------
// Bringing an old unit up to date
// ---------------------------------------------------------------------------

/// Whether a `--config` argument, read back, is the layout from before
/// configs moved into their own folder: `<data root>/%I.json` or
/// `<data root>/%i.json`.
pub open spec fn legacy_config_arg(raw: Seq<char>, data_root: Seq<char>) -> bool {
    ||| paths::same_path(unescaped(raw), paths::join(data_root, "%I.json"@))
    ||| paths::same_path(unescaped(raw), paths::join(data_root, "%i.json"@))
}

/// The `--config` argument a refreshed unit passes: the installed one, as
/// written, unless it is missing or the legacy layout, which is repointed at
/// `<config_base>/%I.json`.
pub open spec fn refreshed_config_arg(
    installed: Seq<char>,
    data_root: Seq<char>,
    config_base: Seq<char>,
) -> Seq<char> {
    let current = escaped(config_base) + "/%I.json"@;
    match exec_config_arg(installed) {
        Some(raw) => if legacy_config_arg(raw, data_root) {
            current
        } else {
            raw
        },
        None => current,
    }
}

/// An installed unit rebuilt at the current template version, or `None` when
/// its stamp is current (or it names no binary to keep). The binary is kept;
/// so is the `--config` argument, unless it is missing or the legacy layout,
/// which is repointed at `<config_base>/%I.json`.
pub open spec fn refreshed(
    installed: Seq<char>,
    data_root: Seq<char>,
    config_base: Seq<char>,
    tools_dir: Option<Seq<char>>,
) -> Option<Seq<char>> {
    if unit_version(installed) >= UNIT_FILE_VERSION {
        None
    } else {
        match exec_binary(installed) {
            None => None,
            Some(binary) => {
                let arg = refreshed_config_arg(installed, data_root, config_base);
                Some(
                    unit_contents(
                        "\""@ + escaped(binary) + "\" --config \""@ + arg + "\""@,
                        config_base,
                        tools_dir,
                    ),
                )
            },
        }
    }
}

pub open spec fn opt_view(o: Option<&str>) -> Option<Seq<char>> {
    match o {
        Some(s) => Some(s@),
        None => None,
    }
}

/// Rebuild an installed unit at the current template version, or `None` when
/// its stamp says there is nothing to do.
pub fn refreshed_unit(
    installed: &str,
    data_root: &str,
    config_base: &str,
    tools_dir: Option<&str>,
) -> (r: Option<String>)
    ensures
        match r {
            Some(u) => refreshed(installed@, data_root@, config_base@, opt_view(tools_dir)) == Some(
                u@,
            ),
            None => refreshed(installed@, data_root@, config_base@, opt_view(tools_dir)) is None,
        },
{
    if unit_version_from_contents(installed) >= UNIT_FILE_VERSION {
        return None;
    }
    let binary = match exec_start_binary(installed) {
        Some(b) => b,
        None => return None,
    };
    let mut current = escape_vec(&chars_of(config_base));
    append_str(&mut current, "/%I.json");
    let root = chars_of(data_root);
    let arg = match exec_start_config_arg(installed) {
        Some(raw) => {
            let back = unescape_vec(&chars_of(raw.as_str()));
            let legacy = same_path_vec(&back, &join_str(&root, "%I.json")) || same_path_vec(
                &back,
                &join_str(&root, "%i.json"),
            );
            if legacy {
                current
            } else {
                chars_of(raw.as_str())
            }
        },
        None => current,
    };
    let mut exec: Vec<char> = Vec::new();
    append_str(&mut exec, "\"");
    append_seq(&mut exec, &escape_vec(&chars_of(binary.as_str())));
    append_str(&mut exec, "\" --config \"");
    append_seq(&mut exec, &arg);
    append_str(&mut exec, "\"");
    let exec_s = string_of(&exec);
    Some(unit_file_contents(exec_s.as_str(), config_base, tools_dir))
}

/// What refreshing the installed unit did.
#[derive(Debug, PartialEq, Eq)]
pub enum UnitRefresh {
    /// No unit installed: this machine does not run bots as services.
    NotInstalled,
    /// The installed unit is already at the current template version.
    Current,
    /// Rewritten from this version to the current one.
    Refreshed(u32),
    /// The unit is stale and the rewrite failed.
    Failed(String),
}

/// Version stamp of the installed unit (its contents, when there is one),
/// and the version this build writes.
pub fn installed_unit_version(installed: Option<&str>) -> (r: Option<(u32, u32)>)
    ensures
        match installed {
            Some(u) => r == Some((unit_version(u@), UNIT_FILE_VERSION)),
            None => r is None,
        },
{
    match installed {
        Some(u) => Some((unit_version_from_contents(u), UNIT_FILE_VERSION)),
        None => None,
    }
}

// ---------------------------------------------------------------------------
// What systemd says
// ---------------------------------------------------------------------------

/// A unit name that is an instance of this bot's template (or the template).
pub open spec fn is_bot_unit(w: Seq<char>) -> bool {
    text::starts_with(w, "ttspotify@"@) && text::ends_with(w, ".service"@)
}

/// The first word of every line that names a bot unit, in order.
pub open spec fn bot_units(ls: Seq<Seq<char>>) -> Seq<Seq<char>>
    decreases ls.len(),
{
    if ls.len() == 0 {
        seq![]
    } else {
        let r = bot_units(ls.drop_last());
        match text::first_word(ls.last()) {
            Some(w) => if is_bot_unit(w) {
                r.push(w)
            } else {
                r
            },
            None => r,
        }
    }
}

fn bot_units_vec(out: &str) -> (r: Vec<String>)
    ensures
        crate::config::string_views(r@) == bot_units(text::lines(out@)),
{
    let ls = lines_vec(&chars_of(out));
    let ghost all = text::views(ls@);
    let mut r: Vec<String> = Vec::new();
    let mut i: usize = 0;
    assert(all.subrange(0, 0) =~= Seq::<Seq<char>>::empty());
    while i < ls.len()
        invariant
            i <= ls.len(),
            all == text::views(ls@),
            crate::config::string_views(r@) == bot_units(all.subrange(0, i as int)),
        decreases ls.len() - i,
    {
        let ghost pre = all.subrange(0, i + 1);
        proof {
            assert(pre.drop_last() =~= all.subrange(0, i as int));
            assert(pre.last() == ls@[i as int]@);
        }
        match first_word_vec(&ls[i]) {
            Some(w) => {
                if starts_with_str(&w, "ttspotify@") && ends_with_str(&w, ".service") {
                    let ghost before = crate::config::string_views(r@);
                    let s = string_of(&w);
                    r.push(s);
                    proof {
                        assert(crate::config::string_views(r@) =~= before.push(w@));
                    }
                }
            },
            None => {},
        }
        i = i + 1;
    }
    assert(all.subrange(0, ls.len() as int) =~= all);
    r
}

/// Parse `systemctl --user list-units 'ttspotify@*' ...` output into unit
/// names: the first column of each line, kept when it is one of ours.
pub fn parse_running_units(output: &str) -> (r: Vec<String>)
    ensures
        crate::config::string_views(r@) == bot_units(text::lines(output@)),
{
    bot_units_vec(output)
}

/// What systemd thinks of one instance, beyond "is it in the running list".
#[derive(Debug, Clone, Copy, PartialEq, Eq, Structural)]
pub enum UnitHealth {
    Running,
    /// Exited and waiting to be started again.
    Restarting,
    /// Given up on: it failed, and systemd will not try again by itself.
    Failed,
    /// Not running because nobody asked it to run.
    Stopped,
}

/// The value of the last `key=value` line for `key`, trimmed; empty when
/// there is none.
pub open spec fn field_value(ls: Seq<Seq<char>>, key: Seq<char>) -> Seq<char>
    decreases ls.len(),
{
    if ls.len() == 0 {
        seq![]
    } else {
        let earlier = field_value(ls.drop_last(), key);
        match text::split_once(ls.last(), seq!['=']) {
            Some((k, v)) => if k == key {
                text::trim(v)
            } else {
                earlier
            },
            None => earlier,
        }
    }
}

/// The health a `systemctl show -p ActiveState -p SubState -p Result` answer
/// describes.
pub open spec fn health_of(output: Seq<char>) -> UnitHealth {
    let ls = text::lines(output);
    let active = field_value(ls, "ActiveState"@);
    let sub = field_value(ls, "SubState"@);
    let result = field_value(ls, "Result"@);
    if active == "active"@ {
        UnitHealth::Running
    } else if active == "activating"@ && sub == "auto-restart"@ {
        UnitHealth::Restarting
    } else if active == "activating"@ {
        UnitHealth::Running
    } else if active == "failed"@ {
        UnitHealth::Failed
    } else if result.len() > 0 && result != "success"@ {
        UnitHealth::Failed
    } else {
        UnitHealth::Stopped
    }
}

/// Read `systemctl show` key=value output into a health verdict. Anything
/// unreadable reads as `Stopped`.
pub fn parse_unit_health(output: &str) -> (r: UnitHealth)
    ensures
        r == health_of(output@),
{
    let ls = lines_vec(&chars_of(output));
    let ghost all = text::views(ls@);
    let eq: Vec<char> = vec!['='];
    let mut active: Vec<char> = Vec::new();
    let mut sub: Vec<char> = Vec::new();
    let mut result: Vec<char> = Vec::new();
    let mut i: usize = 0;
    assert(all.subrange(0, 0) =~= Seq::<Seq<char>>::empty());
    while i < ls.len()
        invariant
            i <= ls.len(),
            all == text::views(ls@),
            eq@ == seq!['='],
            active@ == field_value(all.subrange(0, i as int), "ActiveState"@),
            sub@ == field_value(all.subrange(0, i as int), "SubState"@),
            result@ == field_value(all.subrange(0, i as int), "Result"@),
        decreases ls.len() - i,
    {
        let ghost pre = all.subrange(0, i + 1);
        proof {
            assert(pre.drop_last() =~= all.subrange(0, i as int));
            assert(pre.last() == ls@[i as int]@);
        }
        proof {
            reveal_strlit("ActiveState");
            reveal_strlit("SubState");
            reveal_strlit("Result");
            assert("ActiveState"@.len() != "SubState"@.len());
            assert("ActiveState"@.len() != "Result"@.len());
            assert("SubState"@.len() != "Result"@.len());
        }
        match split_once_vec(&ls[i], &eq) {
            Some((k, v)) => {
                if vec_eq_str(&k, "ActiveState") {
                    active = trim_vec(&v);
                } else if vec_eq_str(&k, "SubState") {
                    sub = trim_vec(&v);
                } else if vec_eq_str(&k, "Result") {
                    result = trim_vec(&v);
                }
                proof {
                    reveal_strlit("ActiveState");
                    reveal_strlit("SubState");
                    reveal_strlit("Result");
                }
            },
            None => {},
        }
        i = i + 1;
    }
    assert(all.subrange(0, ls.len() as int) =~= all);
    if vec_eq_str(&active, "active") {
        UnitHealth::Running
    } else if vec_eq_str(&active, "activating") && vec_eq_str(&sub, "auto-restart") {
        UnitHealth::Restarting
    } else if vec_eq_str(&active, "activating") {
        UnitHealth::Running
    } else if vec_eq_str(&active, "failed") {
        UnitHealth::Failed
    } else if result.len() > 0 && !vec_eq_str(&result, "success") {
        UnitHealth::Failed
    } else {
        UnitHealth::Stopped
    }
}

// ---------------------------------------------------------------------------
// Instance names
// ---------------------------------------------------------------------------

/// Lower-case hex digit for `d < 16`.
pub open spec fn hex_digit(d: u8) -> char {
    if d < 10 {
        ((48 + d) as u8) as char
    } else {
        ((87 + d) as u8) as char
    }
}

/// Bytes `systemd-escape` passes through unchanged: ASCII letters and
/// digits, `:`, `_`, and `.` anywhere but at the start.
pub open spec fn byte_kept(b: u8, first: bool) -> bool {
    ||| (48 <= b <= 57)
    ||| (65 <= b <= 90)
    ||| (97 <= b <= 122)
    ||| b == 58
    ||| b == 95
    ||| (b == 46 && !first)
}

/// How one byte of a name is written in an instance string.
pub open spec fn escape_byte(b: u8, first: bool) -> Seq<char> {
    if b == 47 {
        seq!['-']
    } else if byte_kept(b, first) {
        seq![b as char]
    } else {
        seq!['\\', 'x', hex_digit(b / 16), hex_digit(b % 16)]
    }
}

pub open spec fn escape_bytes(bs: Seq<u8>) -> Seq<char>
    decreases bs.len(),
{
    if bs.len() == 0 {
        seq![]
    } else {
        escape_bytes(bs.drop_last()) + escape_byte(bs.last(), bs.len() == 1)
    }
}

/// A config name as a systemd template instance, as `systemd-escape` writes
/// it: `/` becomes `-`, and every UTF-8 byte outside `[A-Za-z0-9:_.]` (and a
/// leading `.`) becomes `\xNN`.
pub open spec fn instance_name(name: Seq<char>) -> Seq<char> {
    escape_bytes(vstd::utf8::encode_utf8(name))
}

/// A character an instance string may hold: ASCII letters and digits and
/// `-`, `:`, `_`, `.` and the `\` that starts an escape.
pub open spec fn instance_char(c: char) -> bool {
    ||| text::is_ascii_alnum(c)
    ||| c == '-'
    ||| c == ':'
    ||| c == '_'
    ||| c == '.'
    ||| c == '\\'
}

proof fn lemma_escape_bytes_chars(bs: Seq<u8>)
    ensures
        forall|i: int| 0 <= i < escape_bytes(bs).len() ==> instance_char(#[trigger] escape_bytes(bs)[i]),
        escape_bytes(bs).len() > 0 ==> escape_bytes(bs)[0] != '.',
        bs.len() > 0 ==> escape_bytes(bs).len() > 0,
    decreases bs.len(),
{
    if bs.len() > 0 {
        let front = bs.drop_last();
        lemma_escape_bytes_chars(front);
        let b = bs.last();
        let first = bs.len() == 1;
        let e = escape_byte(b, first);
        let hi = b / 16;
        let lo = b % 16;
        assert(hi < 16 && lo < 16);
        assert(instance_char(hex_digit(hi)));
        assert(instance_char(hex_digit(lo)));
        if b != 47 && byte_kept(b, first) {
            assert(instance_char(b as char));
        }
        assert forall|i: int| 0 <= i < e.len() implies instance_char(#[trigger] e[i]) by {}
        let r = escape_bytes(bs);
        assert(r == escape_bytes(front) + e);
        assert forall|i: int| 0 <= i < r.len() implies instance_char(#[trigger] r[i]) by {
            if i < escape_bytes(front).len() {
                assert(r[i] == escape_bytes(front)[i]);
            } else {
                assert(r[i] == e[i - escape_bytes(front).len()]);
            }
        }
        if front.len() == 0 {
            assert(escape_bytes(front).len() == 0);
            assert(r[0] == e[0]);
            if b != 47 && byte_kept(b, true) {
                assert(b != 46);
            }
        } else {
            assert(r[0] == escape_bytes(front)[0]);
        }
    }
}

/// An instance string systemctl can address: nothing but ASCII letters and
/// digits, `-`, `:`, `_`, `.` and escapes, and never a leading `.`, whatever
/// the config was called.
pub proof fn lemma_instance_name_addressable(name: Seq<char>)
    ensures
        forall|i: int|
            0 <= i < instance_name(name).len() ==> instance_char(#[trigger] instance_name(name)[i]),
        instance_name(name).len() > 0 ==> instance_name(name)[0] != '.',
{
    lemma_escape_bytes_chars(vstd::utf8::encode_utf8(name));
}

fn hex_digit_exec(d: u8) -> (r: char)
    requires
        d < 16,
    ensures
        r == hex_digit(d),
{
    if d < 10 {
        ((48 + d) as u8) as char
    } else {
        ((87 + d) as u8) as char
    }
}

/// Escape a config name for use as a systemd template instance.
pub fn systemd_escape_instance(name: &str) -> (r: String)
    ensures
        r@ == instance_name(name@),
{
    let bytes = name.as_bytes();
    let ghost bs = bytes@;
    assert(bs == vstd::utf8::encode_utf8(name@));
    let mut out: Vec<char> = Vec::new();
    let mut i: usize = 0;
    assert(bs.subrange(0, 0) =~= Seq::<u8>::empty());
    while i < bytes.len()
        invariant
            i <= bytes.len(),
            bs == bytes@,
            out@ == escape_bytes(bs.subrange(0, i as int)),
        decreases bytes.len() - i,
    {
        let b = bytes[i];
        let first = i == 0;
        let ghost pre = bs.subrange(0, i + 1);
        proof {
            assert(pre.drop_last() =~= bs.subrange(0, i as int));
            assert(pre.last() == b);
        }
        if b == 47 {
            out.push('-');
        } else if (48 <= b && b <= 57) || (65 <= b && b <= 90) || (97 <= b && b <= 122) || b == 58
            || b == 95 || (b == 46 && !first) {
            out.push(b as char);
        } else {
            out.push('\\');
            out.push('x');
            out.push(hex_digit_exec(b / 16));
            out.push(hex_digit_exec(b % 16));
        }
        proof {
            assert(out@ =~= escape_bytes(bs.subrange(0, i as int)) + escape_byte(b, i == 0));
        }
        i = i + 1;
    }
    assert(bs.subrange(0, bytes.len() as int) =~= bs);
    string_of(&out)
}

/// The unit that runs the bot with this config name.
pub open spec fn instance_unit(name: Seq<char>) -> Seq<char> {
    "ttspotify@"@ + instance_name(name) + ".service"@
}

/// Add `x` unless it is the template itself or already present.
pub open spec fn push_new_unit(acc: Seq<Seq<char>>, x: Seq<char>) -> Seq<Seq<char>> {
    if x == template_unit() || acc.contains(x) {
        acc
    } else {
        acc.push(x)
    }
}

/// The units in `s`, first occurrences only, without the template.
pub open spec fn distinct_units(s: Seq<Seq<char>>) -> Seq<Seq<char>>
    decreases s.len(),
{
    if s.len() == 0 {
        seq![]
    } else {
        push_new_unit(distinct_units(s.drop_last()), s.last())
    }
}

/// Every `ttspotify@` instance worth disabling, from the unit files systemd
/// lists, the units running, and one per config on disk, in that order.
pub open spec fn instances(unit_files: Seq<char>, running: Seq<Seq<char>>, names: Seq<Seq<char>>) -> Seq<Seq<char>> {
    distinct_units(
        bot_units(text::lines(unit_files)) + running + names.map_values(|n: Seq<char>| instance_unit(n)),
    )
}

fn contains_unit(acc: &Vec<String>, x: &Vec<char>) -> (r: bool)
    ensures
        r == crate::config::string_views(acc@).contains(x@),
{
    let ghost vs = crate::config::string_views(acc@);
    let mut i: usize = 0;
    while i < acc.len()
        invariant
            i <= acc.len(),
            vs == crate::config::string_views(acc@),
            forall|k: int| 0 <= k < i ==> vs[k] != x@,
        decreases acc.len() - i,
    {
        if vec_eq(&chars_of(acc[i].as_str()), x) {
            assert(vs[i as int] == x@);
            return true;
        }
        i = i + 1;
    }
    false
}

/// Every `ttspotify@` instance worth disabling, deduplicated, order stable.
/// The bare template is not an instance and is dropped.
pub fn known_instances(unit_files: &str, running: &[String], config_names: &[String]) -> (r: Vec<
    String,
>)
    ensures
        crate::config::string_views(r@) == instances(
            unit_files@,
            crate::config::string_views(running@),
            crate::config::string_views(config_names@),
        ),
{
    let mut cands: Vec<String> = bot_units_vec(unit_files);
    let ghost a = crate::config::string_views(cands@);
    let mut i: usize = 0;
    while i < running.len()
        invariant
            i <= running.len(),
            crate::config::string_views(cands@) == a + crate::config::string_views(
                running@,
            ).subrange(0, i as int),
        decreases running.len() - i,
    {
        let ghost before = crate::config::string_views(cands@);
        let s = string_from_str(running[i].as_str());
        cands.push(s);
        proof {
            assert(crate::config::string_views(cands@) =~= before.push(running@[i as int]@));
            assert(crate::config::string_views(running@).subrange(0, i + 1) =~= crate::config::string_views(
                running@,
            ).subrange(0, i as int).push(running@[i as int]@));
        }
        i = i + 1;
    }
    let ghost b = crate::config::string_views(running@);
    assert(b.subrange(0, running.len() as int) =~= b);
    let ghost names = crate::config::string_views(config_names@);
    let ghost units = names.map_values(|n: Seq<char>| instance_unit(n));
    let mut j: usize = 0;
    while j < config_names.len()
        invariant
            j <= config_names.len(),
            names == crate::config::string_views(config_names@),
            units == names.map_values(|n: Seq<char>| instance_unit(n)),
            crate::config::string_views(cands@) == a + b + units.subrange(0, j as int),
        decreases config_names.len() - j,
    {
        let ghost before = crate::config::string_views(cands@);
        let mut u = chars_of("ttspotify@");
        let esc = systemd_escape_instance(config_names[j].as_str());
        append_str(&mut u, esc.as_str());
        append_str(&mut u, ".service");
        proof {
            assert(names[j as int] == config_names@[j as int]@);
            assert(u@ =~= instance_unit(names[j as int]));
        }
        let s = string_of(&u);
        cands.push(s);
        proof {
            assert(crate::config::string_views(cands@) =~= before.push(units[j as int]));
            assert(units.subrange(0, j + 1) =~= units.subrange(0, j as int).push(units[j as int]));
        }
        j = j + 1;
    }
    assert(units.subrange(0, config_names.len() as int) =~= units);
    let ghost all = crate::config::string_views(cands@);
    let mut out: Vec<String> = Vec::new();
    let mut k: usize = 0;
    let template = chars_of("ttspotify@.service");
    assert(all.subrange(0, 0) =~= Seq::<Seq<char>>::empty());
    while k < cands.len()
        invariant
            k <= cands.len(),
            all == crate::config::string_views(cands@),
            template@ == template_unit(),
            crate::config::string_views(out@) == distinct_units(all.subrange(0, k as int)),
        decreases cands.len() - k,
    {
        let ghost pre = all.subrange(0, k + 1);
        proof {
            assert(pre.drop_last() =~= all.subrange(0, k as int));
            assert(pre.last() == cands@[k as int]@);
        }
        let x = chars_of(cands[k].as_str());
        if !vec_eq(&x, &template) && !contains_unit(&out, &x) {
            let ghost before = crate::config::string_views(out@);
            let s = string_of(&x);
            out.push(s);
            proof {
                assert(crate::config::string_views(out@) =~= before.push(x@));
            }
        }
        k = k + 1;
    }
    assert(all.subrange(0, cands.len() as int) =~= all);
    out
}

/// The `ttspotify@` instances systemd has enabled, read from
/// `systemctl --user list-unit-files 'ttspotify@*'` output.
pub fn enabled_instance_units(unit_files_output: &str) -> (r: Vec<String>)
    ensures
        crate::config::string_views(r@) == instances(unit_files_output@, seq![], seq![]),
{
    let none: Vec<String> = Vec::new();
    let r = known_instances(unit_files_output, none.as_slice(), none.as_slice());
    proof {
        assert(crate::config::string_views(none@) =~= Seq::<Seq<char>>::empty());
    }
    r
}

/// What to tell someone whose session cannot reach systemd.
pub open spec fn no_session_text(program: Seq<char>) -> Seq<char> {
    "This shell has no systemd user session, so bots cannot be managed as services here.\nLog in properly (not with plain `su`), or run a bot in this terminal: "@
        + program + " run <name>"@
}

/// What to tell someone whose session cannot reach systemd.
pub fn no_session_hint(program: &str) -> (r: String)
    ensures
        r@ == no_session_text(program@),
{
    let mut v = chars_of(
        "This shell has no systemd user session, so bots cannot be managed as services here.\nLog in properly (not with plain `su`), or run a bot in this terminal: ",
    );
    append_str(&mut v, program);
    append_str(&mut v, " run <name>");
    string_of(&v)
}

/// Where systemd puts the symlink that marks an instance as enabled: the
/// unit is `WantedBy=default.target`.
pub fn wants_symlink(systemd_dir: &str, unit: &str) -> (r: String)
    ensures
        r@ == paths::join(paths::join(systemd_dir@, "default.target.wants"@), unit@),
{
    let d = join_str(&chars_of(systemd_dir), "default.target.wants");
    string_of(&join_str(&d, unit))
}

/// What stopping one instance on the way to removing the service did, as the
/// line to print, or `None` when nothing happened worth saying. The state
/// seen beforehand decides, not `disable`'s exit status, which succeeds on an
/// instance that was neither enabled nor running.
pub open spec fn disable_report_text(
    unit: Seq<char>,
    disabled: bool,
    was_enabled: bool,
    was_running: bool,
    cleaned: bool,
) -> Option<Seq<char>> {
    if disabled && was_enabled && was_running {
        Some("  "@ + unit + " stopped and disabled."@)
    } else if disabled && was_enabled {
        Some("  "@ + unit + " disabled."@)
    } else if disabled && was_running {
        Some("  "@ + unit + " stopped."@)
    } else if cleaned {
        Some("  "@ + unit + " disabled (left enabled by an earlier uninstall)."@)
    } else {
        None
    }
}

/// The line reporting what happened to one instance, if any.
pub fn disable_report(
    unit: &str,
    disabled: bool,
    was_enabled: bool,
    was_running: bool,
    cleaned: bool,
) -> (r: Option<String>)
    ensures
        match r {
            Some(s) => disable_report_text(unit@, disabled, was_enabled, was_running, cleaned)
                == Some(s@),
            None => disable_report_text(unit@, disabled, was_enabled, was_running, cleaned) is None,
        },
{
    let tail = if disabled && was_enabled && was_running {
        " stopped and disabled."
    } else if disabled && was_enabled {
        " disabled."
    } else if disabled && was_running {
        " stopped."
    } else if cleaned {
        " disabled (left enabled by an earlier uninstall)."
    } else {
        return None;
    };
    let mut v = chars_of("  ");
    append_str(&mut v, unit);
    append_str(&mut v, tail);
    Some(string_of(&v))
}

// ---------------------------------------------------------------------------
// Laws
// ---------------------------------------------------------------------------

/// Every unit this crate writes carries the current version stamp, whatever
/// it runs and wherever it points.
pub proof fn lemma_written_unit_is_current(
    exec_start: Seq<char>,
    config_dir: Seq<char>,
    tools_dir: Option<Seq<char>>,
)
    ensures
        unit_version(unit_contents(exec_start, config_dir, tools_dir)) == UNIT_FILE_VERSION,
{
    let c = unit_contents(exec_start, config_dir, tools_dir);
    reveal_strlit("# ttspotify-unit-version: ");
    reveal_strlit("\n[Unit]\nDescription=TTSpotify Bot (%i)\nAfter=network-online.target\nWants=network-online.target\n# A bot that cannot reach its server exits at once, so an unlimited retry is a\n# login attempt every few seconds forever — against someone else's server, and\n# invisible unless you go looking. Five tries in ten minutes, then the unit\n# stops and stays failed, which `status` and `doctor` both report.\nStartLimitIntervalSec=600\nStartLimitBurst=5\n\n[Service]\nType=simple\nWorkingDirectory=");
    let head = "# ttspotify-unit-version: "@ + text::decimal(6);
    assert(text::decimal(6) =~= seq!['6']);
    assert(head.len() == 27);
    assert(c[27] == '\n');
    let nl = seq!['\n'];
    assert forall|j: int| 0 <= j < 27 implies !text::starts_with(
        #[trigger] c.subrange(j, c.len() as int),
        nl,
    ) by {
        assert(c.subrange(j, c.len() as int).subrange(0, 1)[0] == c[j]);
        assert(c[j] == head[j]);
    }
    assert(c.subrange(27, c.len() as int).subrange(0, 1) =~= nl);
    text::lemma_find_at(c, nl, 27);
    let first = c.subrange(0, 27);
    assert(first =~= head);
    assert(text::strip_cr(first) == first);
    let ls = text::lines(c);
    assert(ls[0] == first);
    assert(first.subrange(0, 26) =~= stamp_prefix());
    assert(text::starts_with(ls[0], stamp_prefix()));
    let v = first.subrange(26, 27);
    assert(v =~= seq!['6']);
    assert(first_stripped(ls, stamp_prefix()) == Some(v));
    assert(text::trim_start(v) == v);
    assert(text::trim_end(v) == v);
    assert(v.drop_last() =~= Seq::<char>::empty());
    assert(v.last() == '6');
    assert(text::digits_value(v.drop_last()) == 0);
    assert(text::digits_value(v) == 6);
    assert(text::all_digits(v));
    assert(text::unsigned_digits(v) == v);
}

/// A refreshed unit is current: refreshing it again finds nothing to do.
pub proof fn lemma_refresh_settles(
    installed: Seq<char>,
    data_root: Seq<char>,
    config_base: Seq<char>,
    tools_dir: Option<Seq<char>>,
)
    ensures
        refreshed(installed, data_root, config_base, tools_dir) matches Some(u) ==> refreshed(
            u,
            data_root,
            config_base,
            tools_dir,
        ) is None,
{
    if refreshed(installed, data_root, config_base, tools_dir) is Some {
        let binary = exec_binary(installed)->0;
        let current = escaped(config_base) + "/%I.json"@;
        let arg = match exec_config_arg(installed) {
            Some(raw) => if legacy_config_arg(raw, data_root) {
                current
            } else {
                raw
            },
            None => current,
        };
        lemma_written_unit_is_current(
            "\""@ + escaped(binary) + "\" --config \""@ + arg + "\""@,
            config_base,
            tools_dir,
        );
    }
}

proof fn lemma_no_percent_no_pair(p: Seq<char>)
    requires
        text::find(p, seq!['%']) < 0,
    ensures
        text::find(p, seq!['%', '%']) == -1,
        forall|j: int| 0 <= j < p.len() ==> p[j] != '%',
{
    text::lemma_find_facts(p, seq!['%']);
    assert forall|j: int| 0 <= j < p.len() implies p[j] != '%' by {
        if p[j] == '%' {
            assert(p.subrange(j, p.len() as int).subrange(0, 1) =~= seq!['%']);
            assert(text::starts_with(p.subrange(j, p.len() as int), seq!['%']));
        }
    }
    assert forall|j: int| 0 <= j <= p.len() implies !text::starts_with(
        #[trigger] p.subrange(j, p.len() as int),
        seq!['%', '%'],
    ) by {
        if j < p.len() && text::starts_with(p.subrange(j, p.len() as int), seq!['%', '%']) {
            assert(p.subrange(j, p.len() as int).subrange(0, 2)[0] == p[j]);
        }
    }
    text::lemma_find_none(p, seq!['%', '%']);
}

/// Unescaping undoes escaping: a path written into a unit reads back as the
/// same path.
pub proof fn lemma_unescape_escape(p: Seq<char>)
    ensures
        unescaped(escaped(p)) == p,
    decreases p.len(),
{
    let p1 = seq!['%'];
    let p2 = seq!['%', '%'];
    let k = text::find(p, p1);
    text::lemma_find_facts(p, p1);
    if k < 0 {
        lemma_no_percent_no_pair(p);
        assert(escaped(p) == p);
    } else {
        let a = p.subrange(0, k);
        let b = p.subrange(k + 1, p.len() as int);
        lemma_unescape_escape(b);
        let e = a + p2 + escaped(b);
        assert(escaped(p) == e);
        assert forall|j: int| 0 <= j < k implies a[j] != '%' by {
            assert(p.subrange(j, p.len() as int).subrange(0, 1) =~= seq![p[j]]);
            if p[j] == '%' {
                assert(p.subrange(j, p.len() as int).subrange(0, 1) =~= p1);
            }
        }
        assert forall|j: int| 0 <= j < k implies !text::starts_with(
            #[trigger] e.subrange(j, e.len() as int),
            p2,
        ) by {
            assert(e.subrange(j, e.len() as int).subrange(0, 2)[0] == e[j]);
            assert(e[j] == a[j]);
        }
        assert(e.subrange(k, e.len() as int).subrange(0, 2) =~= p2);
        text::lemma_find_at(e, p2, k);
        assert(e.subrange(0, k) =~= a);
        assert(e.subrange(k + 2, e.len() as int) =~= escaped(b));
        assert(unescaped(e) == a + p1 + unescaped(escaped(b)));
        assert(a + p1 + b =~= p);
    }
}

/// A quoted first argument is read back as written: a command line that
/// opens with a path in quotes (escaped, holding no quote) has that path,
/// escaped, as its first argument, whatever follows the closing quote.
proof fn lemma_quoted_first_argument(exe: Seq<char>, tail: Seq<char>)
    requires
        exe.len() > 0,
        forall|i: int| 0 <= i < exe.len() ==> exe[i] != '"',
    ensures
        first_argument(seq!['"'] + escaped(exe) + seq!['"'] + tail) == Some(escaped(exe)),
{
    let e = escaped(exe);
    lemma_escaped_keeps_out(exe, '"');
    let line = seq!['"'] + e + seq!['"'] + tail;
    let rest = line.drop_first();
    assert(rest =~= e + seq!['"'] + tail);
    let q = seq!['"'];
    assert forall|j: int| 0 <= j < e.len() implies !text::starts_with(
        #[trigger] rest.subrange(j, rest.len() as int),
        q,
    ) by {
        assert(rest.subrange(j, rest.len() as int).subrange(0, 1)[0] == rest[j]);
        assert(rest[j] == e[j]);
    }
    assert(rest.subrange(e.len() as int, rest.len() as int).subrange(0, 1) =~= q);
    text::lemma_find_at(rest, q, e.len() as int);
    assert(rest.subrange(0, e.len() as int) =~= e);
    lemma_escaped_nonempty(exe);
}

/// The binary written into an `ExecStart` command line reads back unchanged,
/// percent signs and spaces included, when its path is not empty and holds
/// no quote.
pub proof fn lemma_exec_start_reads_back(exe: Seq<char>, config_base: Seq<char>)
    requires
        exe.len() > 0,
        forall|i: int| 0 <= i < exe.len() ==> exe[i] != '"',
    ensures
        match first_argument(exec_start_for(exe, config_base)) {
            Some(b) => unescaped(b) == exe,
            None => false,
        },
{
    reveal_strlit("\"");
    reveal_strlit("\" --config \"");
    let tail = " --config \""@ + escaped(config_base) + "/%I.json\""@;
    reveal_strlit(" --config \"");
    assert(exec_start_for(exe, config_base) =~= seq!['"'] + escaped(exe) + seq!['"'] + tail);
    lemma_quoted_first_argument(exe, tail);
    lemma_unescape_escape(exe);
}

/// A line none of whose characters is `c` does not, trimmed, start with `c`.
proof fn lemma_trimmed_line_lacks(x: Seq<char>, c: char)
    requires
        forall|i: int| 0 <= i < x.len() ==> x[i] != c,
    ensures
        !(text::trim(text::strip_cr(x)).len() > 0 && text::trim(text::strip_cr(x))[0] == c),
{
    let y = text::strip_cr(x);
    text::lemma_trim_sub(y);
    let (i, j) = choose|i: int, j: int| 0 <= i <= j <= y.len() && text::trim(y) == y.subrange(i, j);
    if text::trim(y).len() > 0 {
        assert(text::trim(y)[0] == y[i]);
        assert(y[i] == x[i]);
    }
}

/// The lines of a text that ends one line and goes on with `b`: its first
/// line, then the lines of `b`.
proof fn lemma_lines_after_line(l: Seq<char>, b: Seq<char>)
    requires
        forall|i: int| 0 <= i < l.len() ==> l[i] != '\n',
    ensures
        text::lines(l + seq!['\n'] + b) == seq![text::strip_cr(l)] + text::lines(b),
{
    let t = l + seq!['\n'] + b;
    crate::admins::lemma_index_of_char(t, '\n', l.len() as int);
    assert(t.subrange(0, l.len() as int) =~= l);
    assert(t.subrange(l.len() as int + 1, t.len() as int) =~= b);
}

/// Reading the first line that starts with `p` skips a stretch of lines in
/// which `p`'s first character never occurs.
proof fn lemma_first_stripped_skips(s: Seq<char>, b: Seq<char>, p: Seq<char>)
    requires
        p.len() > 0,
        forall|i: int| 0 <= i < s.len() ==> s[i] != p[0],
    ensures
        first_stripped(trim_each(text::lines(s + seq!['\n'] + b)), p) == first_stripped(
            trim_each(text::lines(b)),
            p,
        ),
    decreases s.len(),
{
    let nl = |i: int| s[i] == '\n';
    if exists|i: int| 0 <= i < s.len() && #[trigger] nl(i) {
        text::lemma_least_index(nl, s.len() as int);
        let k = choose|i: int| 0 <= i < s.len() && #[trigger] nl(i) && forall|j: int| 0 <= j < i ==> !#[trigger] nl(j);
        let l = s.subrange(0, k);
        let s2 = s.subrange(k + 1, s.len() as int);
        assert forall|i: int| 0 <= i < l.len() implies l[i] != '\n' by {
            assert(!nl(i));
        }
        assert(s + seq!['\n'] + b =~= l + seq!['\n'] + (s2 + seq!['\n'] + b));
        lemma_lines_after_line(l, s2 + seq!['\n'] + b);
        assert forall|i: int| 0 <= i < s2.len() implies s2[i] != p[0] by {
            assert(s2[i] == s[k + 1 + i]);
        }
        lemma_first_stripped_skips(s2, b, p);
        assert forall|i: int| 0 <= i < l.len() implies l[i] != p[0] by {
            assert(l[i] == s[i]);
        }
        lemma_trimmed_line_lacks(l, p[0]);
        let rest = text::lines(s2 + seq!['\n'] + b);
        let all = trim_each(text::lines(s + seq!['\n'] + b));
        assert(text::lines(s + seq!['\n'] + b) == seq![text::strip_cr(l)] + rest);
        assert(all =~= seq![text::trim(text::strip_cr(l))] + trim_each(rest));
        assert(!text::starts_with(text::trim(text::strip_cr(l)), p));
        assert(all.len() > 0 && all[0] == text::trim(text::strip_cr(l)));
        assert(all.drop_first() =~= trim_each(rest));
    } else {
        assert forall|i: int| 0 <= i < s.len() implies s[i] != '\n' by {
            assert(!nl(i));
        }
        lemma_lines_after_line(s, b);
        lemma_trimmed_line_lacks(s, p[0]);
        let rest = text::lines(b);
        let all = trim_each(text::lines(s + seq!['\n'] + b));
        assert(all =~= seq![text::trim(text::strip_cr(s))] + trim_each(rest));
        assert(!text::starts_with(text::trim(text::strip_cr(s)), p));
        assert(all.len() > 0 && all[0] == text::trim(text::strip_cr(s)));
        assert(all.drop_first() =~= trim_each(rest));
    }
}

/// A trimmed line whose first character is neither whitespace nor `c` does
/// not start with `c`.
proof fn lemma_trimmed_line_starts(x: Seq<char>, c: char)
    requires
        x.len() > 1,
        !text::is_ws(x[0]),
        x[0] != c,
    ensures
        text::trim(text::strip_cr(x)).len() > 0 && text::trim(text::strip_cr(x))[0] != c,
{
    let y = text::strip_cr(x);
    assert(y[0] == x[0]);
    assert(text::trim_start(y) == y);
    text::lemma_trim_end_keeps_first(y);
}

/// The binary a written unit runs reads back from the whole unit file
/// unchanged, percent signs and spaces included, when its path is not empty
/// and holds no quote, and no path in it breaks a line.
pub proof fn lemma_unit_binary_reads_back(
    exe: Seq<char>,
    config_base: Seq<char>,
    config_dir: Seq<char>,
    tools_dir: Option<Seq<char>>,
)
    requires
        exe.len() > 0,
        forall|i: int| 0 <= i < exe.len() ==> exe[i] != '"' && exe[i] != '\n',
        forall|i: int| 0 <= i < config_base.len() ==> config_base[i] != '\n',
        forall|i: int| 0 <= i < config_dir.len() ==> config_dir[i] != '\n',
    ensures
        exec_binary(unit_contents(exec_start_for(exe, config_base), config_dir, tools_dir)) == Some(
            exe,
        ),
{
    let line = exec_start_for(exe, config_base);
    reveal_strlit("\"");
    reveal_strlit("\" --config \"");
    reveal_strlit("/%I.json\"");
    lemma_escaped_keeps_out(exe, '\n');
    lemma_escaped_keeps_out(config_base, '\n');
    let e1 = escaped(exe);
    let e2 = escaped(config_base);
    let mid = "\" --config \""@;
    let end = "/%I.json\""@;
    assert(line =~= seq!['"'] + e1 + mid + e2 + end);
    assert forall|i: int| 0 <= i < line.len() implies line[i] != '\n' by {
        if 1 <= i < 1 + e1.len() {
            assert(line[i] == e1[i - 1]);
        } else if 1 + e1.len() + mid.len() <= i < 1 + e1.len() + mid.len() + e2.len() {
            assert(line[i] == e2[i - 1 - e1.len() - mid.len()]);
        }
    }
    assert(line[0] == '"');
    assert(line.last() == '"');
    lemma_unit_exec_start_reads_back(line, config_dir, tools_dir);
    lemma_exec_start_reads_back(exe, config_base);
}

proof fn lemma_trim_start_first(s: Seq<char>)
    ensures
        text::trim_start(s).len() > 0 ==> !text::is_ws(text::trim_start(s)[0]),
    decreases s.len(),
{
    if s.len() > 0 && text::is_ws(s[0]) {
        lemma_trim_start_first(s.drop_first());
    }
}

/// A first argument is never empty.
proof fn lemma_first_argument_nonempty(line: Seq<char>)
    ensures
        first_argument(line) matches Some(w) ==> w.len() > 0,
{
    if !(line.len() > 0 && line[0] == '"') {
        let t = text::trim_start(line);
        lemma_trim_start_first(line);
        if t.len() > 0 {
            assert(text::word_len(t) == 1 + text::word_len(t.drop_first()));
            lemma_word_len_nonneg(t.drop_first());
            assert(text::first_word(line) == Some(t.subrange(0, text::word_len(t))));
        }
    }
}

proof fn lemma_word_len_nonneg(t: Seq<char>)
    ensures
        0 <= text::word_len(t) <= t.len(),
    decreases t.len(),
{
    if t.len() > 0 && !text::is_ws(t[0]) {
        lemma_word_len_nonneg(t.drop_first());
    }
}

proof fn lemma_unescaped_nonempty(p: Seq<char>)
    requires
        p.len() > 0,
    ensures
        unescaped(p).len() > 0,
{
    text::lemma_find_facts(p, seq!['%', '%']);
}

/// A refreshed unit runs the binary the old one ran, read back from the new
/// file exactly as from the old, whenever that binary holds no quote and
/// nothing involved breaks a line.
pub proof fn lemma_refresh_keeps_binary(
    installed: Seq<char>,
    data_root: Seq<char>,
    config_base: Seq<char>,
    tools_dir: Option<Seq<char>>,
)
    requires
        refreshed(installed, data_root, config_base, tools_dir) is Some,
        exec_binary(installed) matches Some(b) && forall|i: int|
            0 <= i < b.len() ==> b[i] != '"' && b[i] != '\n',
        forall|i: int| 0 <= i < config_base.len() ==> config_base[i] != '\n',
        exec_config_arg(installed) matches Some(raw) ==> forall|i: int|
            0 <= i < raw.len() ==> raw[i] != '\n',
    ensures
        refreshed(installed, data_root, config_base, tools_dir) matches Some(u) && exec_binary(u)
            == exec_binary(installed),
{
    let b = exec_binary(installed)->0;
    let line = exec_start_value(installed)->0;
    let w = first_argument(line)->0;
    lemma_first_argument_nonempty(line);
    lemma_unescaped_nonempty(w);
    let current = escaped(config_base) + "/%I.json"@;
    let arg = match exec_config_arg(installed) {
        Some(raw) => if legacy_config_arg(raw, data_root) {
            current
        } else {
            raw
        },
        None => current,
    };
    reveal_strlit("\"");
    reveal_strlit("\" --config \"");
    reveal_strlit(" --config \"");
    reveal_strlit("/%I.json");
    lemma_escaped_keeps_out(config_base, '\n');
    lemma_escaped_keeps_out(b, '\n');
    assert forall|i: int| 0 <= i < arg.len() implies arg[i] != '\n' by {
        if arg == current && i < escaped(config_base).len() {
            assert(arg[i] == escaped(config_base)[i]);
        }
    }
    let eb = escaped(b);
    let tail = " --config \""@ + arg + "\""@;
    let l = "\""@ + eb + "\" --config \""@ + arg + "\""@;
    assert(l =~= seq!['"'] + eb + seq!['"'] + tail);
    assert forall|i: int| 0 <= i < l.len() implies l[i] != '\n' by {
        if 1 <= i < 1 + eb.len() {
            assert(l[i] == eb[i - 1]);
        } else if 1 + eb.len() + 12 <= i < 1 + eb.len() + 12 + arg.len() {
            assert(l[i] == arg[i - 1 - eb.len() - 12]);
        }
    }
    assert(l[0] == '"' && l.last() == '"');
    lemma_unit_exec_start_reads_back(l, config_base, tools_dir);
    lemma_quoted_first_argument(b, tail);
    lemma_unescape_escape(b);
}

/// Escaping puts no new occurrence of a text without `%` into a path.
proof fn lemma_escaped_keeps_text_out(p: Seq<char>, q: Seq<char>)
    requires
        q.len() > 0,
        forall|i: int| 0 <= i < q.len() ==> q[i] != '%',
        forall|j: int| 0 <= j <= p.len() ==> !text::starts_with(#[trigger] p.subrange(j, p.len() as int), q),
    ensures
        forall|j: int|
            0 <= j <= escaped(p).len() ==> !text::starts_with(
                #[trigger] escaped(p).subrange(j, escaped(p).len() as int),
                q,
            ),
    decreases p.len(),
{
    let p1 = seq!['%'];
    let k = text::find(p, p1);
    text::lemma_find_facts(p, p1);
    if k >= 0 {
        let a = p.subrange(0, k);
        let b = p.subrange(k + 1, p.len() as int);
        assert forall|j: int| 0 <= j <= b.len() implies !text::starts_with(
            #[trigger] b.subrange(j, b.len() as int),
            q,
        ) by {
            assert(b.subrange(j, b.len() as int) =~= p.subrange(k + 1 + j, p.len() as int));
        }
        lemma_escaped_keeps_text_out(b, q);
        let eb = escaped(b);
        let e = a + seq!['%', '%'] + eb;
        assert(escaped(p) == e);
        assert forall|j: int| 0 <= j <= e.len() implies !text::starts_with(
            #[trigger] e.subrange(j, e.len() as int),
            q,
        ) by {
            let t = e.subrange(j, e.len() as int);
            if text::starts_with(t, q) {
                if j + q.len() <= k {
                    assert(p.subrange(j, p.len() as int).subrange(0, q.len() as int) =~= t.subrange(
                        0,
                        q.len() as int,
                    ));
                } else if j < k {
                    assert(t[k - j] == e[k]);
                    assert(q[k - j] == t.subrange(0, q.len() as int)[k - j]);
                } else if j < k + 2 {
                    assert(q[0] == t.subrange(0, q.len() as int)[0]);
                    assert(t[0] == e[j]);
                } else {
                    assert(t =~= eb.subrange(j - k - 2, eb.len() as int));
                }
            }
        }
    } else {
        assert(escaped(p) == p);
    }
}

/// A refreshed unit passes the `--config` argument the old one passed, as
/// written, unless that was missing or the legacy layout, which is
/// repointed (`refreshed_config_arg`); so a hand-written config path
/// survives the refresh. This holds whenever no path involved holds a quote
/// or breaks a line and the binary's path does not contain `--config`.
pub proof fn lemma_refresh_keeps_config_arg(
    installed: Seq<char>,
    data_root: Seq<char>,
    config_base: Seq<char>,
    tools_dir: Option<Seq<char>>,
)
    requires
        refreshed(installed, data_root, config_base, tools_dir) is Some,
        exec_binary(installed) matches Some(b) && (forall|i: int|
            0 <= i < b.len() ==> b[i] != '"' && b[i] != '\n') && text::find(b, "--config"@) < 0,
        forall|i: int| 0 <= i < config_base.len() ==> config_base[i] != '"' && config_base[i] != '\n',
        exec_config_arg(installed) matches Some(raw) ==> forall|i: int|
            0 <= i < raw.len() ==> raw[i] != '"' && raw[i] != '\n',
    ensures
        refreshed(installed, data_root, config_base, tools_dir) matches Some(u) && exec_config_arg(u)
            == Some(refreshed_config_arg(installed, data_root, config_base)),
{
    let b = exec_binary(installed)->0;
    let line = exec_start_value(installed)->0;
    let w = first_argument(line)->0;
    lemma_first_argument_nonempty(line);
    lemma_unescaped_nonempty(w);
    let current = escaped(config_base) + "/%I.json"@;
    let arg = refreshed_config_arg(installed, data_root, config_base);
    reveal_strlit("\"");
    reveal_strlit("\" --config \"");
    reveal_strlit(" --config \"");
    reveal_strlit("/%I.json");
    reveal_strlit("--config");
    lemma_escaped_keeps_out(config_base, '\n');
    lemma_escaped_keeps_out(config_base, '"');
    lemma_escaped_keeps_out(b, '\n');
    lemma_escaped_keeps_out(b, '"');
    match exec_config_arg(installed) {
        Some(raw) => {
            let l0 = exec_start_value(installed)->0;
            let (x, after) = text::split_once(l0, "--config"@)->0;
            lemma_first_argument_nonempty(text::trim_start(after));
        },
        None => {},
    }
    assert(arg.len() > 0);
    assert forall|i: int| 0 <= i < arg.len() implies arg[i] != '\n' && arg[i] != '"' by {
        if arg == current && i < escaped(config_base).len() {
            assert(arg[i] == escaped(config_base)[i]);
        }
    }
    let eb = escaped(b);
    let q = "--config"@;
    let tail = " --config \""@ + arg + "\""@;
    let l = "\""@ + eb + "\" --config \""@ + arg + "\""@;
    assert(l =~= seq!['"'] + eb + seq!['"'] + tail);
    assert forall|i: int| 0 <= i < l.len() implies l[i] != '\n' by {
        if 1 <= i < 1 + eb.len() {
            assert(l[i] == eb[i - 1]);
        } else if 1 + eb.len() + 12 <= i < 1 + eb.len() + 12 + arg.len() {
            assert(l[i] == arg[i - 1 - eb.len() - 12]);
        }
    }
    assert(l[0] == '"' && l.last() == '"');
    lemma_unit_exec_start_reads_back(l, config_base, tools_dir);
    text::lemma_find_facts(b, q);
    assert forall|i: int| 0 <= i < q.len() implies q[i] != '%' by {}
    lemma_escaped_keeps_text_out(b, q);
    lemma_config_arg_reads_back(eb, arg);
}

/// In a command line that quotes the binary and then passes `--config`
/// with a quoted argument, that argument is what reads back as the config
/// argument, when the escaped binary holds neither a quote nor `--config`.
#[verifier::rlimit(50)]
proof fn lemma_config_arg_reads_back(eb: Seq<char>, arg: Seq<char>)
    requires
        forall|i: int| 0 <= i < eb.len() ==> eb[i] != '"',
        forall|j: int| 0 <= j <= eb.len() ==> !text::starts_with(#[trigger] eb.subrange(j, eb.len() as int), "--config"@),
        arg.len() > 0,
        forall|i: int| 0 <= i < arg.len() ==> arg[i] != '"',
    ensures
        text::split_once("\""@ + eb + "\" --config \""@ + arg + "\""@, "--config"@) matches Some((x, after))
            && first_argument(text::trim_start(after)) == Some(arg),
{
    reveal_strlit("\"");
    reveal_strlit("\" --config \"");
    reveal_strlit("--config");
    let q = "--config"@;
    let l = "\""@ + eb + "\" --config \""@ + arg + "\""@;
    let k: int = 3 + eb.len() as int;
    assert forall|j: int| 0 <= j < k implies !text::starts_with(#[trigger] l.subrange(j, l.len() as int), q) by {
        let t = l.subrange(j, l.len() as int);
        if text::starts_with(t, q) {
            assert(q[0] == t.subrange(0, q.len() as int)[0]);
            if j == 0 || j == 1 + eb.len() || j == 2 + eb.len() {
                assert(t[0] == l[j]);
            } else if j + 8 <= 1 + eb.len() {
                assert(eb.subrange(j - 1, eb.len() as int).subrange(0, 8) =~= t.subrange(0, 8));
            } else {
                assert(t[1 + eb.len() - j] == l[1 + eb.len() as int]);
                assert(q[1 + eb.len() - j] == t.subrange(0, q.len() as int)[1 + eb.len() - j]);
            }
        }
    }
    assert(l.subrange(k, l.len() as int).subrange(0, 8) =~= q);
    text::lemma_find_at(l, q, k);
    let after = l.subrange(k + 8, l.len() as int);
    assert(after =~= seq![' '] + (seq!['"'] + arg + seq!['"']));
    assert(text::is_ws(' '));
    let inner = seq!['"'] + arg + seq!['"'];
    assert(after.drop_first() =~= inner);
    assert(text::trim_start(inner) == inner);
    assert(text::trim_start(after) == inner);
    let rest = inner.drop_first();
    assert(rest =~= arg + seq!['"']);
    assert forall|j: int| 0 <= j < arg.len() implies !text::starts_with(
        #[trigger] rest.subrange(j, rest.len() as int),
        seq!['"'],
    ) by {
        assert(rest.subrange(j, rest.len() as int).subrange(0, 1)[0] == rest[j]);
    }
    assert(rest.subrange(arg.len() as int, rest.len() as int).subrange(0, 1) =~= seq!['"']);
    text::lemma_find_at(rest, seq!['"'], arg.len() as int);
    assert(rest.subrange(0, arg.len() as int) =~= arg);
}

/// `text` holds `line` as a whole line of its own, between two line breaks.
pub open spec fn has_line(text: Seq<char>, line: Seq<char>) -> bool {
    exists|i: int|
        0 <= i && i + line.len() + 2 <= text.len() && #[trigger] text.subrange(i, i + line.len() + 2)
            == seq!['\n'] + line + seq!['\n']
}

/// A unit written with a YouTube tools directory lets the sandboxed bot
/// write to it: the unit holds the line `ReadWritePaths=-<dir>`, with `%`
/// escaped.
pub proof fn lemma_unit_opens_tools_dir(exec_start: Seq<char>, config_dir: Seq<char>, tools_dir: Seq<char>)
    ensures
        has_line(
            unit_contents(exec_start, config_dir, Some(tools_dir)),
            "ReadWritePaths=-"@ + escaped(tools_dir),
        ),
{
    let u = unit_contents(exec_start, config_dir, Some(tools_dir));
    let cd = escaped(config_dir);
    let rw = "ReadWritePaths=-"@ + escaped(tools_dir);
    let tools_rw = rw + "\n"@;
    let front = "# ttspotify-unit-version: "@ + text::decimal(6) + "\n[Unit]\nDescription=TTSpotify Bot (%i)\nAfter=network-online.target\nWants=network-online.target\n# A bot that cannot reach its server exits at once, so an unlimited retry is a\n# login attempt every few seconds forever — against someone else's server, and\n# invisible unless you go looking. Five tries in ten minutes, then the unit\n# stops and stays failed, which `status` and `doctor` both report.\nStartLimitIntervalSec=600\nStartLimitBurst=5\n\n[Service]\nType=simple\nWorkingDirectory="@ + cd + "\nExecStart="@ + exec_start
        + "\nRestart=on-failure\nRestartPreventExitStatus="@ + text::decimal(78) + "\nRestartSec=30\n# The bot answers SIGTERM by leaving the TeamTalk channel before it exits, so\n# systemd is asked to wait for that instead of killing it mid-logout.\nTimeoutStopSec=20\n\n# Sandbox: everything is read-only to the bot except the paths below.\n# Using a custom --config path in ExecStart? Add its folder as another\n# ReadWritePaths line. If the service fails to start on a kernel without\n# unprivileged user namespaces, delete this block.\nProtectSystem=strict\nPrivateTmp=true\nNoNewPrivileges=true\nReadWritePaths=-"@ + cd;
    let back = "ReadWritePaths=-%h/.local/share/ttspotify\nReadWritePaths=-%h/.cache\n\n[Install]\nWantedBy=default.target\n"@;
    reveal_strlit("\n");
    assert("\n"@ =~= seq!['\n']);
    assert(u =~= front + (seq!['\n'] + rw + seq!['\n']) + back);
    let i = front.len() as int;
    assert(u.subrange(i, i + rw.len() + 2) =~= seq!['\n'] + rw + seq!['\n']);
}

/// A refresh keeps the YouTube tools directory writable: when it is given
/// one, the refreshed unit holds its `ReadWritePaths=-<dir>` line, so the
/// sandbox does not turn the tools read-only.
pub proof fn lemma_refresh_opens_tools_dir(
    installed: Seq<char>,
    data_root: Seq<char>,
    config_base: Seq<char>,
    tools_dir: Seq<char>,
)
    ensures
        refreshed(installed, data_root, config_base, Some(tools_dir)) matches Some(u) ==> has_line(
            u,
            "ReadWritePaths=-"@ + escaped(tools_dir),
        ),
{
    if refreshed(installed, data_root, config_base, Some(tools_dir)) is Some {
        let binary = exec_binary(installed)->0;
        let arg = refreshed_config_arg(installed, data_root, config_base);
        lemma_unit_opens_tools_dir(
            "\""@ + escaped(binary) + "\" --config \""@ + arg + "\""@,
            config_base,
            tools_dir,
        );
    }
}

/// The unit's text up to the line before `WorkingDirectory=`.
spec fn unit_header() -> Seq<char> {
    "# ttspotify-unit-version: "@ + text::decimal(6) + "\n[Unit]\nDescription=TTSpotify Bot (%i)\nAfter=network-online.target\nWants=network-online.target\n# A bot that cannot reach its server exits at once, so an unlimited retry is a\n# login attempt every few seconds forever — against someone else's server, and\n# invisible unless you go looking. Five tries in ten minutes, then the unit\n# stops and stays failed, which `status` and `doctor` both report.\nStartLimitIntervalSec=600\nStartLimitBurst=5\n\n[Service]\nType=simple"@
}

/// The unit's header holds no `E`, so no line of it reads as `ExecStart=`.
#[verifier::rlimit(50)]
proof fn lemma_unit_header_lacks_e()
    ensures
        forall|i: int| 0 <= i < unit_header().len() ==> unit_header()[i] != 'E',
{
    reveal_strlit("# ttspotify-unit-version: ");
    reveal_strlit("\n[Unit]\nDescription=TTSpotify Bot (%i)\nAfter=network-online.target\nWants=network-online.target\n# A bot that cannot reach its server exits at once, so an unlimited retry is a\n# login attempt every few seconds forever — against someone else's server, and\n# invisible unless you go looking. Five tries in ten minutes, then the unit\n# stops and stays failed, which `status` and `doctor` both report.\nStartLimitIntervalSec=600\nStartLimitBurst=5\n\n[Service]\nType=simple");
    assert(text::decimal(6) =~= seq!['6']);
}

/// Where the `ExecStart` line falls in a unit: after a header in which no
/// `E` occurs and the `WorkingDirectory=` line, and before the rest.
#[verifier::rlimit(50)]
proof fn lemma_unit_layout(exec_start: Seq<char>, config_dir: Seq<char>, tools_dir: Option<Seq<char>>) -> (r: (
    Seq<char>,
    Seq<char>,
))
    requires
        forall|i: int| 0 <= i < config_dir.len() ==> config_dir[i] != '\n',
    ensures
        unit_contents(exec_start, config_dir, tools_dir) == r.0 + seq!['\n'] + (("WorkingDirectory="@
            + escaped(config_dir)) + seq!['\n'] + (("ExecStart="@ + exec_start) + seq!['\n'] + r.1)),
        forall|i: int| 0 <= i < r.0.len() ==> r.0[i] != 'E',
        forall|i: int| 0 <= i < escaped(config_dir).len() ==> escaped(config_dir)[i] != '\n',
{
    let c = unit_contents(exec_start, config_dir, tools_dir);
    let cd = escaped(config_dir);
    lemma_escaped_keeps_out(config_dir, '\n');
    let tools_rw = match tools_dir {
        Some(d) => "ReadWritePaths=-"@ + escaped(d) + "\n"@,
        None => seq![],
    };
    let lit1 = "# ttspotify-unit-version: "@;
    let lit3 = "\n[Unit]\nDescription=TTSpotify Bot (%i)\nAfter=network-online.target\nWants=network-online.target\n# A bot that cannot reach its server exits at once, so an unlimited retry is a\n# login attempt every few seconds forever — against someone else's server, and\n# invisible unless you go looking. Five tries in ten minutes, then the unit\n# stops and stays failed, which `status` and `doctor` both report.\nStartLimitIntervalSec=600\nStartLimitBurst=5\n\n[Service]\nType=simple\nWorkingDirectory="@;
    let lit3a = "\n[Unit]\nDescription=TTSpotify Bot (%i)\nAfter=network-online.target\nWants=network-online.target\n# A bot that cannot reach its server exits at once, so an unlimited retry is a\n# login attempt every few seconds forever — against someone else's server, and\n# invisible unless you go looking. Five tries in ten minutes, then the unit\n# stops and stays failed, which `status` and `doctor` both report.\nStartLimitIntervalSec=600\nStartLimitBurst=5\n\n[Service]\nType=simple"@;
    let wd = "\nWorkingDirectory="@;
    let es = "\nExecStart="@;
    let lit5 = "\nRestart=on-failure\nRestartPreventExitStatus="@;
    let lit5b = "Restart=on-failure\nRestartPreventExitStatus="@;
    reveal_strlit("# ttspotify-unit-version: ");
    reveal_strlit("\n[Unit]\nDescription=TTSpotify Bot (%i)\nAfter=network-online.target\nWants=network-online.target\n# A bot that cannot reach its server exits at once, so an unlimited retry is a\n# login attempt every few seconds forever — against someone else's server, and\n# invisible unless you go looking. Five tries in ten minutes, then the unit\n# stops and stays failed, which `status` and `doctor` both report.\nStartLimitIntervalSec=600\nStartLimitBurst=5\n\n[Service]\nType=simple\nWorkingDirectory=");
    reveal_strlit("\n[Unit]\nDescription=TTSpotify Bot (%i)\nAfter=network-online.target\nWants=network-online.target\n# A bot that cannot reach its server exits at once, so an unlimited retry is a\n# login attempt every few seconds forever — against someone else's server, and\n# invisible unless you go looking. Five tries in ten minutes, then the unit\n# stops and stays failed, which `status` and `doctor` both report.\nStartLimitIntervalSec=600\nStartLimitBurst=5\n\n[Service]\nType=simple");
    reveal_strlit("\nWorkingDirectory=");
    reveal_strlit("WorkingDirectory=");
    reveal_strlit("\nExecStart=");
    reveal_strlit("ExecStart=");
    reveal_strlit("\nRestart=on-failure\nRestartPreventExitStatus=");
    reveal_strlit("Restart=on-failure\nRestartPreventExitStatus=");
    assert(lit3 =~= lit3a + wd);
    assert(es =~= seq!['\n'] + "ExecStart="@);
    assert(lit5 =~= seq!['\n'] + lit5b);
    assert(wd =~= seq!['\n'] + "WorkingDirectory="@);
    let d6 = text::decimal(6);
    assert(d6 =~= seq!['6']);
    let rest = lit5b + text::decimal(78) + "\nRestartSec=30\n# The bot answers SIGTERM by leaving the TeamTalk channel before it exits, so\n# systemd is asked to wait for that instead of killing it mid-logout.\nTimeoutStopSec=20\n\n# Sandbox: everything is read-only to the bot except the paths below.\n# Using a custom --config path in ExecStart? Add its folder as another\n# ReadWritePaths line. If the service fails to start on a kernel without\n# unprivileged user namespaces, delete this block.\nProtectSystem=strict\nPrivateTmp=true\nNoNewPrivileges=true\nReadWritePaths=-"@ + cd + "\n"@ + tools_rw + "ReadWritePaths=-%h/.local/share/ttspotify\nReadWritePaths=-%h/.cache\n\n[Install]\nWantedBy=default.target\n"@;
    let h0 = lit1 + d6 + lit3a;
    let w = "WorkingDirectory="@ + cd;
    let e = "ExecStart="@ + exec_start;
    assert(c =~= h0 + seq!['\n'] + (w + seq!['\n'] + (e + seq!['\n'] + rest)));
    lemma_unit_header_lacks_e();
    (h0, rest)
}

/// A unit reads back the command line it was written with: its `ExecStart`
/// value is that line, whatever the directories it names, when neither the
/// line nor the data directory breaks a line and the line neither starts nor
/// ends with whitespace.
pub proof fn lemma_unit_exec_start_reads_back(
    exec_start: Seq<char>,
    config_dir: Seq<char>,
    tools_dir: Option<Seq<char>>,
)
    requires
        exec_start.len() > 0,
        !text::is_ws(exec_start[0]),
        !text::is_ws(exec_start.last()),
        forall|i: int| 0 <= i < exec_start.len() ==> exec_start[i] != '\n',
        forall|i: int| 0 <= i < config_dir.len() ==> config_dir[i] != '\n',
    ensures
        exec_start_value(unit_contents(exec_start, config_dir, tools_dir)) == Some(exec_start),
{
    let c = unit_contents(exec_start, config_dir, tools_dir);
    let cd = escaped(config_dir);
    let (h0, rest) = lemma_unit_layout(exec_start, config_dir, tools_dir);
    let w = "WorkingDirectory="@ + cd;
    let e = "ExecStart="@ + exec_start;
    reveal_strlit("WorkingDirectory=");
    reveal_strlit("ExecStart=");
    let p = "ExecStart="@;
    assert(p.len() == 10 && p[0] == 'E');
    lemma_first_stripped_skips(h0, w + seq!['\n'] + (e + seq!['\n'] + rest), p);
    assert forall|i: int| 0 <= i < w.len() implies w[i] != '\n' by {
        if i >= 17 {
            assert(w[i] == cd[i - 17]);
        }
    }
    lemma_lines_after_line(w, e + seq!['\n'] + rest);
    lemma_trimmed_line_starts(w, 'E');
    assert forall|i: int| 0 <= i < e.len() implies e[i] != '\n' by {
        if i >= 10 {
            assert(e[i] == exec_start[i - 10]);
        }
    }
    lemma_lines_after_line(e, rest);
    assert(e.last() == exec_start.last());
    assert(text::strip_cr(e) == e);
    assert(text::trim_start(e) == e);
    assert(text::trim_end(e) == e);
    assert(text::trim_start(exec_start) == exec_start);
    assert(text::trim_end(exec_start) == exec_start);
    let after_w = text::lines(e + seq!['\n'] + rest);
    let lw = trim_each(text::lines(w + seq!['\n'] + (e + seq!['\n'] + rest)));
    assert(lw =~= seq![text::trim(text::strip_cr(w))] + trim_each(after_w));
    assert(lw[0] == text::trim(text::strip_cr(w)));
    assert(!text::starts_with(lw[0], p));
    assert(lw.drop_first() =~= trim_each(after_w));
    let le = trim_each(after_w);
    assert(le[0] == e);
    assert(e.subrange(0, 10) =~= p);
    assert(e.subrange(10, e.len() as int) =~= exec_start);
    assert(text::starts_with(le[0], p));
    assert(first_stripped(le, p) == Some(exec_start));
    assert(first_stripped(lw, p) == Some(exec_start));
    assert(first_stripped(trim_each(text::lines(c)), p) == Some(exec_start));
    assert(text::trim(exec_start) == exec_start);
}

proof fn lemma_escaped_keeps_out(p: Seq<char>, c: char)
    requires
        c != '%',
        forall|i: int| 0 <= i < p.len() ==> p[i] != c,
    ensures
        forall|i: int| 0 <= i < escaped(p).len() ==> escaped(p)[i] != c,
    decreases p.len(),
{
    let p1 = seq!['%'];
    let k = text::find(p, p1);
    text::lemma_find_facts(p, p1);
    if k >= 0 {
        let b = p.subrange(k + 1, p.len() as int);
        lemma_escaped_keeps_out(b, c);
        let e = p.subrange(0, k) + seq!['%', '%'] + escaped(b);
        assert forall|i: int| 0 <= i < e.len() implies e[i] != c by {
            if i < k {
                assert(e[i] == p[i]);
            } else if i >= k + 2 {
                assert(e[i] == escaped(b)[i - k - 2]);
            }
        }
    }
}

proof fn lemma_escaped_nonempty(p: Seq<char>)
    requires
        p.len() > 0,
    ensures
        escaped(p).len() > 0,
{
    let p1 = seq!['%'];
    text::lemma_find_facts(p, p1);
}

proof fn lemma_distinct_units_step(s: Seq<Seq<char>>)
    ensures
        forall|i: int|
            0 <= i < distinct_units(s).len() ==> #[trigger] distinct_units(s)[i] != template_unit(),
        forall|i: int, j: int|
            0 <= i < j < distinct_units(s).len() ==> distinct_units(s)[i] != distinct_units(s)[j],
    decreases s.len(),
{
    if s.len() > 0 {
        lemma_distinct_units_step(s.drop_last());
        let r = distinct_units(s.drop_last());
        let x = s.last();
        if !(x == template_unit() || r.contains(x)) {
            let r2 = r.push(x);
            assert forall|i: int| 0 <= i < r2.len() implies #[trigger] r2[i] != template_unit() by {
                if i < r.len() {
                    assert(r2[i] == r[i]);
                }
            }
            assert forall|i: int, j: int| 0 <= i < j < r2.len() implies r2[i] != r2[j] by {
                if j < r.len() {
                    assert(r2[i] == r[i] && r2[j] == r[j]);
                } else {
                    assert(r2[i] == r[i]);
                    if r[i] == x {
                        assert(r.contains(x));
                    }
                }
            }
        }
    }
}

/// The instances to disable never include the template and never repeat one.
pub proof fn lemma_instances_distinct(
    unit_files: Seq<char>,
    running: Seq<Seq<char>>,
    names: Seq<Seq<char>>,
)
    ensures
        forall|i: int|
            0 <= i < instances(unit_files, running, names).len() ==> #[trigger] instances(
                unit_files,
                running,
                names,
            )[i] != template_unit(),
        forall|i: int, j: int|
            0 <= i < j < instances(unit_files, running, names).len() ==> instances(
                unit_files,
                running,
                names,
            )[i] != instances(unit_files, running, names)[j],
{
    lemma_distinct_units_step(
        bot_units(text::lines(unit_files)) + running + names.map_values(
            |n: Seq<char>| instance_unit(n),
        ),
    );
}

} // verus!
