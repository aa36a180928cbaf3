//! The pieces of `doctor`'s report that are decisions rather than lookups:
//! reading `ldconfig -p`, describing the SDK download and each bot's state.

use vstd::prelude::*;

use crate::admins;
use crate::paths;
use crate::paths::join_str;
use crate::service::{trim_each, UnitHealth};
use crate::text;
use crate::text::{
    chars_of, find_vec, lines_vec, slice_vec, split_once_vec, starts_with_str,
    string_from_str, string_of, trim_vec, vec_eq, append_str, append_seq,
};

verus! {

/// The shared library the TeamTalk SDK links against.
pub open spec fn pulse_soname() -> Seq<char> {
    "libpulse.so.0"@
}

/// `line.split(sep).nth(1)`: the text between the first and second
/// occurrence of `sep`, or after the first when there is no second.
pub open spec fn second_piece(line: Seq<char>, sep: Seq<char>) -> Option<Seq<char>> {
    match text::split_once(line, sep) {
        Some((_, after)) => {
            let k = text::find(after, sep);
            Some(
                if k < 0 {
                    after
                } else {
                    after.subrange(0, k)
                },
            )
        },
        None => None,
    }
}

/// The path on the first line for libpulse that has one.
pub open spec fn pulse_path_in(ls: Seq<Seq<char>>) -> Option<Seq<char>>
    decreases ls.len(),
{
    if ls.len() == 0 {
        None
    } else if text::starts_with(ls[0], pulse_soname()) && second_piece(ls[0], "=>"@) is Some {
        Some(text::trim(second_piece(ls[0], "=>"@)->0))
    } else {
        pulse_path_in(ls.drop_first())
    }
}

/// The resolved path for libpulse in `ldconfig -p` output, whose lines look
/// like `libpulse.so.0 (libc6,x86-64) => /lib/x86_64-linux-gnu/libpulse.so.0`.
pub open spec fn libpulse_in(output: Seq<char>) -> Option<Seq<char>> {
    pulse_path_in(trim_each(text::lines(output)))
}

fn second_piece_vec(line: &Vec<char>, sep: &Vec<char>) -> (r: Option<Vec<char>>)
    ensures
        match r {
            Some(v) => second_piece(line@, sep@) == Some(v@),
            None => second_piece(line@, sep@) is None,
        },
{
    match split_once_vec(line, sep) {
        Some((_, after)) => {
            let found = find_vec(&after, sep);
            proof {
                text::lemma_find_facts(after@, sep@);
            }
            match found {
                Some(k) => Some(slice_vec(&after, 0, k)),
                None => Some(after),
            }
        },
        None => None,
    }
}

/// Pull the resolved path for libpulse out of `ldconfig -p` output.
pub fn libpulse_from_ldconfig(output: &str) -> (r: Option<String>)
    ensures
        match r {
            Some(p) => libpulse_in(output@) == Some(p@),
            None => libpulse_in(output@) is None,
        },
{
    let raw = lines_vec(&chars_of(output));
    let ls = crate::service::trim_each_lines(&raw);
    let ghost all = text::views(ls@);
    let sep = chars_of("=>");
    let mut i: usize = 0;
    assert(all.subrange(0, all.len() as int) =~= all);
    while i < ls.len()
        invariant
            i <= ls.len(),
            all == text::views(ls@),
            all == trim_each(text::lines(output@)),
            sep@ == "=>"@,
            pulse_path_in(all) == pulse_path_in(all.subrange(i as int, all.len() as int)),
        decreases ls.len() - i,
    {
        let ghost rest = all.subrange(i as int, all.len() as int);
        assert(rest[0] == ls@[i as int]@);
        if starts_with_str(&ls[i], "libpulse.so.0") {
            match second_piece_vec(&ls[i], &sep) {
                Some(p) => {
                    return Some(string_of(&trim_vec(&p)));
                },
                None => {},
            }
        }
        assert(rest.drop_first() =~= all.subrange(i + 1, all.len() as int));
        i = i + 1;
    }
    None
}

/// Places a distribution may keep libpulse when `ldconfig` is unavailable.
pub open spec fn fallback_dirs() -> Seq<Seq<char>> {
    seq![
        "/usr/lib/x86_64-linux-gnu"@,
        "/usr/lib/aarch64-linux-gnu"@,
        "/usr/lib64"@,
        "/usr/lib"@,
        "/lib"@,
    ]
}

/// Where to look for libpulse when `ldconfig` is unavailable, in order.
pub fn fallback_pulse_paths() -> (r: Vec<String>)
    ensures
        r.len() == 5,
        forall|i: int|
            0 <= i < 5 ==> #[trigger] r@[i]@ == paths::join(fallback_dirs()[i], pulse_soname()),
{
    let mut r: Vec<String> = Vec::new();
    r.push(string_of(&join_str(&chars_of("/usr/lib/x86_64-linux-gnu"), "libpulse.so.0")));
    r.push(string_of(&join_str(&chars_of("/usr/lib/aarch64-linux-gnu"), "libpulse.so.0")));
    r.push(string_of(&join_str(&chars_of("/usr/lib64"), "libpulse.so.0")));
    r.push(string_of(&join_str(&chars_of("/usr/lib"), "libpulse.so.0")));
    r.push(string_of(&join_str(&chars_of("/lib"), "libpulse.so.0")));
    r
}

/// The sentence to add to an SDK startup failure when libpulse is missing.
pub open spec fn libpulse_hint_text() -> Seq<char> {
    "libpulse.so.0 is not installed - the TeamTalk SDK needs it. On Debian, Ubuntu and Raspberry Pi OS: sudo apt install libpulse0"@
}

/// The sentence to add to an SDK startup failure, given where libpulse was
/// found: `None` when it is present and the failure is something else.
pub fn libpulse_hint(libpulse: Option<&str>) -> (r: Option<String>)
    ensures
        match libpulse {
            Some(_) => r is None,
            None => r matches Some(s) && s@ == libpulse_hint_text(),
        },
{
    match libpulse {
        Some(_) => None,
        None => Some(
            string_from_str(
                "libpulse.so.0 is not installed - the TeamTalk SDK needs it. On Debian, Ubuntu and Raspberry Pi OS: sudo apt install libpulse0",
            ),
        ),
    }
}

/// How the SDK download is described: the version marker when it says
/// anything, otherwise whether the library itself is there.
pub open spec fn sdk_status_text(marker: Option<Seq<char>>, library_present: bool) -> Seq<char> {
    match marker {
        Some(m) if !text::is_blank(m) => text::trim(m),
        _ => if library_present {
            "present, version unknown"@
        } else {
            "not downloaded yet (fetched on first run)"@
        },
    }
}

/// Describe the SDK download.
pub fn sdk_status(marker: Option<String>, library_present: bool) -> (r: String)
    ensures
        r@ == sdk_status_text(
            match marker {
                Some(m) => Some(m@),
                None => None,
            },
            library_present,
        ),
{
    match marker {
        Some(m) => {
            let t = trim_vec(&chars_of(m.as_str()));
            proof {
                text::lemma_trim_empty_iff_blank(m@);
            }
            if t.len() > 0 {
                return string_of(&t);
            }
        },
        None => {},
    }
    if library_present {
        string_from_str("present, version unknown")
    } else {
        string_from_str("not downloaded yet (fetched on first run)")
    }
}

/// How a config's bot is doing, as one phrase.
pub open spec fn instance_state_text(
    unit: Seq<char>,
    running: Seq<Seq<char>>,
    enabled: Seq<Seq<char>>,
    health: UnitHealth,
) -> Seq<char> {
    match health {
        UnitHealth::Failed => "failed - it starts and then stops"@,
        UnitHealth::Restarting => "failing and being restarted"@,
        _ => {
            let up = running.contains(unit);
            let on = enabled.contains(unit);
            if up && on {
                "running, starts at login"@
            } else if up {
                "running, but not enabled (it will not come back after a reboot)"@
            } else if on {
                "enabled but not running"@
            } else {
                "not running"@
            }
        },
    }
}

fn list_contains(list: &[String], unit: &Vec<char>) -> (r: bool)
    ensures
        r == crate::config::string_views(list@).contains(unit@),
{
    let ghost vs = crate::config::string_views(list@);
    let mut i: usize = 0;
    while i < list.len()
        invariant
            i <= list.len(),
            vs == crate::config::string_views(list@),
            forall|k: int| 0 <= k < i ==> vs[k] != unit@,
        decreases list.len() - i,
    {
        if vec_eq(&chars_of(list[i].as_str()), unit) {
            assert(vs[i as int] == unit@);
            return true;
        }
        i = i + 1;
    }
    false
}

/// How a config's bot is doing. `health` comes from systemd: a bot in a crash
/// loop is absent from the running list for most of every cycle.
pub fn instance_state(unit: &str, running: &[String], enabled: &[String], health: UnitHealth) -> (r:
    &'static str)
    ensures
        r@ == instance_state_text(
            unit@,
            crate::config::string_views(running@),
            crate::config::string_views(enabled@),
            health,
        ),
{
    match health {
        UnitHealth::Failed => "failed - it starts and then stops",
        UnitHealth::Restarting => "failing and being restarted",
        _ => {
            let u = chars_of(unit);
            let up = list_contains(running, &u);
            let on = list_contains(enabled, &u);
            if up && on {
                "running, starts at login"
            } else if up {
                "running, but not enabled (it will not come back after a reboot)"
            } else if on {
                "enabled but not running"
            } else {
                "not running"
            }
        },
    }
}

pub fn yes_no(value: bool) -> (r: &'static str)
    ensures
        value ==> r@ == "yes"@,
        !value ==> r@ == "no"@,
{
    if value {
        "yes"
    } else {
        "no"
    }
}

pub fn describe_services(spotify: bool, youtube: bool) -> (r: &'static str)
    ensures
        spotify && youtube ==> r@ == "Spotify and YouTube"@,
        spotify && !youtube ==> r@ == "Spotify only"@,
        !spotify && youtube ==> r@ == "YouTube only"@,
        !spotify && !youtube ==> r@ == "none enabled"@,
{
    match (spotify, youtube) {
        (true, true) => "Spotify and YouTube",
        (true, false) => "Spotify only",
        (false, true) => "YouTube only",
        (false, false) => "none enabled",
    }
}

/// One configured bot, as the report found it.
#[derive(Debug, Clone, PartialEq, Eq)]
pub struct BotCheck {
    pub name: String,
    /// Where its config file is.
    pub config_path: String,
    /// What systemd says about its service instance.
    pub health: UnitHealth,
    /// The services its config enables; `None` when the config will not load.
    pub services: Option<crate::config::EnabledServices>,
}

/// Everything the report looked up that decides what to suggest.
#[derive(Debug, Clone, PartialEq, Eq)]
pub struct DoctorFacts {
    /// The name the program is run by.
    pub program: String,
    /// Whether the binary's directory is on `PATH`.
    pub on_path: bool,
    pub bots: Vec<BotCheck>,
    /// Whether some JSON file in the configs directory is not a usable bot.
    pub unusable_files: bool,
    pub configs_dir: String,
    pub spotify_login_cached: bool,
    pub yt_dlp_installed: bool,
    pub js_runtime_installed: bool,
    pub libpulse_present: bool,
    pub systemd_booted: bool,
    pub systemd_reachable: bool,
    /// The installed unit's version stamp and the current one, when a unit
    /// is installed.
    pub unit_version: Option<(u32, u32)>,
    /// Whether user services survive logout, when that is known.
    pub linger: Option<bool>,
    /// Whether any bot instance is enabled.
    pub any_enabled: bool,
    pub linger_user: String,
    /// Whether the installed unit runs a binary that no longer exists.
    pub service_binary_missing: bool,
}

/// How to do each thing a suggestion points at.
#[derive(Debug, Clone, PartialEq, Eq)]
pub struct Hints {
    pub install_binary: String,
    pub create_bot: String,
    pub sign_in_spotify: String,
    pub install_youtube_tools: String,
    pub update_youtube_tools: String,
    pub install_service: String,
}

/// Whether a bot's config loads and enables Spotify.
pub open spec fn enables_spotify(b: BotCheck) -> bool {
    match b.services {
        Some(s) => s.spotify,
        None => false,
    }
}

/// Whether a bot's config loads and enables YouTube.
pub open spec fn enables_youtube(b: BotCheck) -> bool {
    match b.services {
        Some(s) => s.youtube,
        None => false,
    }
}

/// Whether some bot's config enables Spotify.
pub open spec fn wants_spotify(bots: Seq<BotCheck>) -> bool {
    exists|i: int| 0 <= i < bots.len() && enables_spotify(#[trigger] bots[i])
}

/// Whether some bot's config enables YouTube.
pub open spec fn wants_youtube(bots: Seq<BotCheck>) -> bool {
    exists|i: int| 0 <= i < bots.len() && enables_youtube(#[trigger] bots[i])
}

/// The suggestions about one bot: why it will not stay up, and that its
/// config needs repairing.
pub open spec fn bot_fixes(program: Seq<char>, b: BotCheck) -> Seq<Seq<char>> {
    let a = crate::config::push_if(
        Seq::empty(),
        b.health == UnitHealth::Failed || b.health == UnitHealth::Restarting,
        "See why "@ + b.name@ + " will not stay up - run: "@ + program + " logs "@ + b.name@,
    );
    crate::config::push_if(
        a,
        b.services is None,
        "Repair "@ + b.config_path@ + " by hand, or replace it: "@ + program + " remove "@ + b.name@
            + " then "@ + program + " add "@ + b.name@,
    )
}

/// The suggestions about every bot, in order.
pub open spec fn bots_fixes(program: Seq<char>, bots: Seq<BotCheck>) -> Seq<Seq<char>>
    decreases bots.len(),
{
    if bots.len() == 0 {
        seq![]
    } else {
        bots_fixes(program, bots.drop_last()) + bot_fixes(program, bots.last())
    }
}

/// The suggestions about the systemd service, when systemd is there.
pub open spec fn service_fixes(f: DoctorFacts, h: Hints) -> Seq<Seq<char>> {
    let a = match f.unit_version {
        Some((installed, current)) => crate::config::push_if(
            Seq::empty(),
            installed < current,
            "Refresh the service file - "@ + h.install_service@,
        ),
        None => crate::config::push_if(
            Seq::empty(),
            f.bots.len() > 0,
            "Run bots in the background - "@ + h.install_service@,
        ),
    };
    let b = crate::config::push_if(
        a,
        f.linger == Some(false) && f.any_enabled,
        "Keep bots running after logout: loginctl enable-linger "@ + f.linger_user@,
    );
    crate::config::push_if(
        b,
        f.service_binary_missing,
        "Point the service at this binary - "@ + h.install_binary@,
    )
}

/// The suggestions about the binary and the bots, in order.
pub open spec fn first_fixes(f: DoctorFacts, h: Hints) -> Seq<Seq<char>> {
    let s = crate::config::push_if(
        Seq::empty(),
        !f.on_path,
        "Put the binary on your PATH - "@ + h.install_binary@,
    );
    let s = crate::config::push_if(s, f.bots.len() == 0, "Create one - "@ + h.create_bot@);
    s + bots_fixes(f.program@, f.bots@)
}

/// `s` followed by the suggestions about unusable files, logins, tools, the
/// audio library and reaching systemd, in order.
pub open spec fn setup_fixes(s: Seq<Seq<char>>, f: DoctorFacts, h: Hints) -> Seq<Seq<char>> {
    let s = crate::config::push_if(
        s,
        f.unusable_files,
        "Repair or delete the unusable file(s) in "@ + f.configs_dir@,
    );
    let s = crate::config::push_if(
        s,
        wants_spotify(f.bots@) && !f.spotify_login_cached,
        "Sign in to Spotify once - "@ + h.sign_in_spotify@,
    );
    let s = crate::config::push_if(
        s,
        wants_youtube(f.bots@) && !f.yt_dlp_installed,
        "Install the YouTube tools - "@ + h.install_youtube_tools@,
    );
    let s = crate::config::push_if(
        s,
        wants_youtube(f.bots@) && f.yt_dlp_installed && !f.js_runtime_installed,
        "Add the JavaScript runtime YouTube needs - "@ + h.update_youtube_tools@,
    );
    let s = crate::config::push_if(
        s,
        !f.libpulse_present,
        "Install the audio library: sudo apt install libpulse0"@,
    );
    crate::config::push_if(
        s,
        f.systemd_booted && !f.systemd_reachable,
        "Log in properly (not with plain `su`) to manage bots as services"@,
    )
}

/// Everything the report suggests, in the order it checks.
pub open spec fn fixes_for(f: DoctorFacts, h: Hints) -> Seq<Seq<char>> {
    let s = setup_fixes(first_fixes(f, h), f, h);
    if f.systemd_booted {
        s + service_fixes(f, h)
    } else {
        s
    }
}

fn push_text(fixes: &mut Vec<String>, t: &Vec<char>)
    ensures
        crate::config::string_views(final(fixes)@) == crate::config::string_views(old(fixes)@).push(
            t@,
        ),
{
    let ghost before = crate::config::string_views(fixes@);
    fixes.push(string_of(t));
    proof {
        assert(crate::config::string_views(fixes@) =~= before.push(t@));
    }
}

fn push_two(fixes: &mut Vec<String>, a: &str, b: &str)
    ensures
        crate::config::string_views(final(fixes)@) == crate::config::string_views(old(fixes)@).push(
            a@ + b@,
        ),
{
    let mut t: Vec<char> = Vec::new();
    append_str(&mut t, a);
    append_str(&mut t, b);
    assert(t@ =~= a@ + b@);
    push_text(fixes, &t);
}

fn bot_fix_texts(fixes: &mut Vec<String>, program: &str, b: &BotCheck)
    ensures
        crate::config::string_views(final(fixes)@) == crate::config::string_views(old(fixes)@) + bot_fixes(
            program@,
            *b,
        ),
{
    let ghost start = crate::config::string_views(fixes@);
    let stays_down = match b.health {
        UnitHealth::Failed => true,
        UnitHealth::Restarting => true,
        _ => false,
    };
    if stays_down {
        let mut t: Vec<char> = Vec::new();
        append_str(&mut t, "See why ");
        append_str(&mut t, b.name.as_str());
        append_str(&mut t, " will not stay up - run: ");
        append_str(&mut t, program);
        append_str(&mut t, " logs ");
        append_str(&mut t, b.name.as_str());
        push_text(fixes, &t);
    }
    let ghost mid = crate::config::string_views(fixes@);
    if b.services.is_none() {
        let mut t: Vec<char> = Vec::new();
        append_str(&mut t, "Repair ");
        append_str(&mut t, b.config_path.as_str());
        append_str(&mut t, " by hand, or replace it: ");
        append_str(&mut t, program);
        append_str(&mut t, " remove ");
        append_str(&mut t, b.name.as_str());
        append_str(&mut t, " then ");
        append_str(&mut t, program);
        append_str(&mut t, " add ");
        append_str(&mut t, b.name.as_str());
        push_text(fixes, &t);
    }
    proof {
        let a = crate::config::push_if(
            Seq::<Seq<char>>::empty(),
            b.health == UnitHealth::Failed || b.health == UnitHealth::Restarting,
            "See why "@ + b.name@ + " will not stay up - run: "@ + program@ + " logs "@ + b.name@,
        );
        assert(mid =~= start + a);
        assert(crate::config::string_views(fixes@) =~= start + bot_fixes(program@, *b));
    }
}

fn first_fix_texts(f: &DoctorFacts, h: &Hints) -> (r: (Vec<String>, bool, bool))
    ensures
        crate::config::string_views(r.0@) == first_fixes(*f, *h),
        r.1 == wants_spotify(f.bots@),
        r.2 == wants_youtube(f.bots@),
{
    let mut fixes: Vec<String> = Vec::new();
    let program = f.program.as_str();
    let ghost s0 = crate::config::string_views(fixes@);
    assert(s0 =~= Seq::<Seq<char>>::empty());
    if !f.on_path {
        push_two(&mut fixes, "Put the binary on your PATH - ", h.install_binary.as_str());
    }
    let ghost s1 = crate::config::string_views(fixes@);
    assert(s1 =~= crate::config::push_if(
        s0,
        !f.on_path,
        "Put the binary on your PATH - "@ + h.install_binary@,
    ));
    if f.bots.len() == 0 {
        push_two(&mut fixes, "Create one - ", h.create_bot.as_str());
    }
    let ghost s2 = crate::config::string_views(fixes@);
    assert(s2 =~= crate::config::push_if(s1, f.bots.len() == 0, "Create one - "@ + h.create_bot@));
    let mut spotify = false;
    let mut youtube = false;
    let mut i: usize = 0;
    while i < f.bots.len()
        invariant
            i <= f.bots.len(),
            program@ == f.program@,
            crate::config::string_views(fixes@) == s2 + bots_fixes(
                f.program@,
                f.bots@.subrange(0, i as int),
            ),
            spotify == exists|k: int| 0 <= k < i && enables_spotify(#[trigger] f.bots@[k]),
            youtube == exists|k: int| 0 <= k < i && enables_youtube(#[trigger] f.bots@[k]),
        decreases f.bots.len() - i,
    {
        let ghost sub = f.bots@.subrange(0, i as int + 1);
        proof {
            assert(sub.drop_last() =~= f.bots@.subrange(0, i as int));
            assert(sub.last() == f.bots@[i as int]);
        }
        let b = &f.bots[i];
        bot_fix_texts(&mut fixes, program, b);
        match &b.services {
            Some(x) => {
                if x.spotify {
                    spotify = true;
                }
                if x.youtube {
                    youtube = true;
                }
            },
            None => {},
        }
        proof {
            assert(crate::config::string_views(fixes@) =~= s2 + bots_fixes(f.program@, sub));
        }
        i = i + 1;
    }
    proof {
        assert(f.bots@.subrange(0, f.bots.len() as int) =~= f.bots@);
    }
    (fixes, spotify, youtube)
}

fn setup_fix_texts(fixes: &mut Vec<String>, f: &DoctorFacts, h: &Hints, spotify: bool, youtube: bool)
    requires
        spotify == wants_spotify(f.bots@),
        youtube == wants_youtube(f.bots@),
    ensures
        crate::config::string_views(final(fixes)@) == setup_fixes(
            crate::config::string_views(old(fixes)@),
            *f,
            *h,
        ),
{
    let ghost s3 = crate::config::string_views(fixes@);
    if f.unusable_files {
        push_two(fixes, "Repair or delete the unusable file(s) in ", f.configs_dir.as_str());
    }
    let ghost s4 = crate::config::string_views(fixes@);
    if spotify && !f.spotify_login_cached {
        push_two(fixes, "Sign in to Spotify once - ", h.sign_in_spotify.as_str());
    }
    let ghost s5 = crate::config::string_views(fixes@);
    if youtube && !f.yt_dlp_installed {
        push_two(fixes, "Install the YouTube tools - ", h.install_youtube_tools.as_str());
    }
    let ghost s6 = crate::config::string_views(fixes@);
    if youtube && f.yt_dlp_installed && !f.js_runtime_installed {
        push_two(fixes, "Add the JavaScript runtime YouTube needs - ", h.update_youtube_tools.as_str());
    }
    let ghost s7 = crate::config::string_views(fixes@);
    if !f.libpulse_present {
        let mut t: Vec<char> = Vec::new();
        append_str(&mut t, "Install the audio library: sudo apt install libpulse0");
        push_text(fixes, &t);
    }
    let ghost s8 = crate::config::string_views(fixes@);
    if f.systemd_booted && !f.systemd_reachable {
        let mut t: Vec<char> = Vec::new();
        append_str(&mut t, "Log in properly (not with plain `su`) to manage bots as services");
        push_text(fixes, &t);
    }
    proof {
        assert(s4 =~= crate::config::push_if(
            s3,
            f.unusable_files,
            "Repair or delete the unusable file(s) in "@ + f.configs_dir@,
        ));
        assert(s5 =~= crate::config::push_if(
            s4,
            wants_spotify(f.bots@) && !f.spotify_login_cached,
            "Sign in to Spotify once - "@ + h.sign_in_spotify@,
        ));
        assert(s6 =~= crate::config::push_if(
            s5,
            wants_youtube(f.bots@) && !f.yt_dlp_installed,
            "Install the YouTube tools - "@ + h.install_youtube_tools@,
        ));
        assert(s7 =~= crate::config::push_if(
            s6,
            wants_youtube(f.bots@) && f.yt_dlp_installed && !f.js_runtime_installed,
            "Add the JavaScript runtime YouTube needs - "@ + h.update_youtube_tools@,
        ));
        assert(s8 =~= crate::config::push_if(
            s7,
            !f.libpulse_present,
            "Install the audio library: sudo apt install libpulse0"@,
        ));
    }
}

fn service_fix_texts(fixes: &mut Vec<String>, f: &DoctorFacts, h: &Hints)
    ensures
        crate::config::string_views(final(fixes)@) == crate::config::string_views(old(fixes)@)
            + service_fixes(*f, *h),
{
    let ghost s9 = crate::config::string_views(fixes@);
    match f.unit_version {
        Some((installed, current)) => {
            if installed < current {
                push_two(fixes, "Refresh the service file - ", h.install_service.as_str());
            }
        },
        None => {
            if f.bots.len() > 0 {
                push_two(fixes, "Run bots in the background - ", h.install_service.as_str());
            }
        },
    }
    let ghost t1 = crate::config::string_views(fixes@);
    let lingering_off = match f.linger {
        Some(on) => !on,
        None => false,
    };
    if lingering_off && f.any_enabled {
        push_two(
            fixes,
            "Keep bots running after logout: loginctl enable-linger ",
            f.linger_user.as_str(),
        );
    }
    let ghost t2 = crate::config::string_views(fixes@);
    if f.service_binary_missing {
        push_two(fixes, "Point the service at this binary - ", h.install_binary.as_str());
    }
    proof {
        let a = match f.unit_version {
            Some((installed, current)) => crate::config::push_if(
                Seq::<Seq<char>>::empty(),
                installed < current,
                "Refresh the service file - "@ + h.install_service@,
            ),
            None => crate::config::push_if(
                Seq::<Seq<char>>::empty(),
                f.bots.len() > 0,
                "Run bots in the background - "@ + h.install_service@,
            ),
        };
        assert(t1 =~= s9 + a);
        let b = crate::config::push_if(
            a,
            f.linger == Some(false) && f.any_enabled,
            "Keep bots running after logout: loginctl enable-linger "@ + f.linger_user@,
        );
        assert(t2 =~= s9 + b);
        assert(crate::config::string_views(fixes@) =~= s9 + service_fixes(*f, *h));
    }
}

/// Everything the report suggests fixing, in the order it checks: the
/// binary, the bots and their configs, the logins and tools they need, the
/// audio library, and the systemd service.
pub fn doctor_fixes(f: &DoctorFacts, h: &Hints) -> (r: Vec<String>)
    ensures
        crate::config::string_views(r@) == fixes_for(*f, *h),
{
    let (mut fixes, spotify, youtube) = first_fix_texts(f, h);
    setup_fix_texts(&mut fixes, f, h, spotify, youtube);
    if f.systemd_booted {
        service_fix_texts(&mut fixes, f, h);
    }
    fixes
}

/// The report's closing lines: the suggestions numbered from 1, or word
/// that nothing looks wrong.
pub open spec fn closing_lines(fixes: Seq<Seq<char>>) -> Seq<Seq<char>> {
    if fixes.len() == 0 {
        seq!["Nothing looks wrong."@]
    } else {
        seq!["Suggested next steps:"@] + Seq::new(
            fixes.len(),
            |i: int| "  "@ + text::decimal((i + 1) as nat) + ". "@ + fixes[i],
        )
    }
}

/// The lines that close the report.
pub fn next_steps(fixes: &[String]) -> (r: Vec<String>)
    ensures
        crate::config::string_views(r@) == closing_lines(crate::config::string_views(fixes@)),
{
    let ghost fv = crate::config::string_views(fixes@);
    let mut out: Vec<String> = Vec::new();
    if fixes.len() == 0 {
        out.push(string_from_str("Nothing looks wrong."));
        proof {
            assert(crate::config::string_views(out@) =~= closing_lines(fv));
        }
        return out;
    }
    out.push(string_from_str("Suggested next steps:"));
    let mut i: usize = 0;
    while i < fixes.len()
        invariant
            i <= fixes.len(),
            fixes.len() <= usize::MAX,
            fv == crate::config::string_views(fixes@),
            crate::config::string_views(out@) == seq!["Suggested next steps:"@] + Seq::new(
                i as nat,
                |k: int| "  "@ + text::decimal((k + 1) as nat) + ". "@ + fv[k],
            ),
        decreases fixes.len() - i,
    {
        let ghost before = crate::config::string_views(out@);
        let mut t: Vec<char> = Vec::new();
        append_str(&mut t, "  ");
        let n = text::decimal_vec(i as u64 + 1);
        append_seq(&mut t, &n);
        append_str(&mut t, ". ");
        append_str(&mut t, fixes[i].as_str());
        let ghost tv = t@;
        proof {
            assert(fv[i as int] == fixes@[i as int]@);
            assert(tv == "  "@ + text::decimal((i + 1) as nat) + ". "@ + fv[i as int]);
        }
        out.push(string_of(&t));
        i = i + 1;
        proof {
            assert(crate::config::string_views(out@) =~= before.push(tv));
            assert(seq!["Suggested next steps:"@] + Seq::new(
                i as nat,
                |k: int| "  "@ + text::decimal((k + 1) as nat) + ". "@ + fv[k],
            ) =~= (seq!["Suggested next steps:"@] + Seq::new(
                (i - 1) as nat,
                |k: int| "  "@ + text::decimal((k + 1) as nat) + ". "@ + fv[k],
            )).push(tv));
        }
    }
    proof {
        assert(crate::config::string_views(out@) =~= closing_lines(fv));
    }
    out
}

} // verus!
