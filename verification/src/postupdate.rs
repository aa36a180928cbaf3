//! What the binary that just arrived says about the work it does once after a
//! version change: where each message goes depends on whether anyone is at
//! the keyboard.

use vstd::prelude::*;

use crate::service::UnitRefresh;
use crate::text;
use crate::text::{append_seq, append_str, chars_of, decimal_vec, string_of};

verus! {

/// Where a reconcile is running, which decides whether it may ask questions.
#[derive(Debug, Clone, Copy, PartialEq, Eq, Structural)]
pub enum Mode {
    /// A bot starting up. Often a systemd service with nobody watching, so
    /// this path never prompts and never downloads.
    Startup,
    /// The `post-update` run, straight after an update in the user's terminal.
    Interactive,
}

/// Where a message goes.
#[derive(Debug, Clone, Copy, PartialEq, Eq, Structural)]
pub enum NoticeLevel {
    /// Printed for the person at the terminal.
    Print,
    /// Logged as information.
    Info,
    /// Logged as a warning.
    Warn,
}

/// What a refreshed unit is announced with.
pub open spec fn refreshed_text(was: nat) -> Seq<char> {
    "Service file updated (was version "@ + text::decimal(was)
        + "). It takes effect the next time each bot restarts; the previous file is kept as ttspotify@.service.bak."@
}

/// What a unit that could not be refreshed is announced with.
pub open spec fn refresh_failed_text(why: Seq<char>, install_hint: Seq<char>) -> Seq<char> {
    "Your systemd service file is from an older release and could not be updated automatically ("@
        + why + "). To refresh it, "@ + install_hint
}

/// How a refresh outcome is announced: nothing when there was nothing to do,
/// otherwise printed in an interactive run and logged at startup (a failure
/// as a warning).
pub open spec fn refresh_notice(mode: Mode, refresh: UnitRefresh, install_hint: Seq<char>) -> Option<
    (NoticeLevel, Seq<char>),
> {
    match refresh {
        UnitRefresh::NotInstalled => None,
        UnitRefresh::Current => None,
        UnitRefresh::Refreshed(was) => Some(
            (
                if mode == Mode::Interactive {
                    NoticeLevel::Print
                } else {
                    NoticeLevel::Info
                },
                refreshed_text(was as nat),
            ),
        ),
        UnitRefresh::Failed(why) => Some(
            (
                if mode == Mode::Interactive {
                    NoticeLevel::Print
                } else {
                    NoticeLevel::Warn
                },
                refresh_failed_text(why@, install_hint),
            ),
        ),
    }
}

/// How to announce what refreshing the systemd unit did; `install_hint`
/// says how to install the service by hand.
pub fn unit_notice(mode: Mode, refresh: &UnitRefresh, install_hint: &str) -> (r: Option<
    (NoticeLevel, String),
>)
    ensures
        match r {
            Some((level, t)) => refresh_notice(mode, *refresh, install_hint@) == Some((level, t@)),
            None => refresh_notice(mode, *refresh, install_hint@) is None,
        },
{
    let printed = match mode {
        Mode::Interactive => true,
        Mode::Startup => false,
    };
    match refresh {
        UnitRefresh::NotInstalled => None,
        UnitRefresh::Current => None,
        UnitRefresh::Refreshed(was) => {
            let mut t: Vec<char> = Vec::new();
            append_str(&mut t, "Service file updated (was version ");
            let n = decimal_vec(*was as u64);
            append_seq(&mut t, &n);
            append_str(
                &mut t,
                "). It takes effect the next time each bot restarts; the previous file is kept as ttspotify@.service.bak.",
            );
            let level = if printed {
                NoticeLevel::Print
            } else {
                NoticeLevel::Info
            };
            Some((level, string_of(&t)))
        },
        UnitRefresh::Failed(why) => {
            let mut t: Vec<char> = Vec::new();
            append_str(
                &mut t,
                "Your systemd service file is from an older release and could not be updated automatically (",
            );
            append_str(&mut t, why.as_str());
            append_str(&mut t, "). To refresh it, ");
            append_str(&mut t, install_hint);
            let level = if printed {
                NoticeLevel::Print
            } else {
                NoticeLevel::Warn
            };
            Some((level, string_of(&t)))
        },
    }
}

/// A YouTube install from before yt-dlp needed a JavaScript runtime: yt-dlp
/// is there and no runtime is. It looks complete and plays badly.
pub fn tools_lack_runtime(yt_dlp_installed: bool, js_runtime_installed: bool) -> (r: bool)
    ensures
        r == (yt_dlp_installed && !js_runtime_installed),
{
    yt_dlp_installed && !js_runtime_installed
}

/// What a bot starting up logs about such an install; `update_hint` says
/// how to update the tools.
pub open spec fn runtime_warning_text(update_hint: Seq<char>) -> Seq<char> {
    "The YouTube tools are installed without a JavaScript runtime, which YouTube now needs; some tracks will fail to play. To fix it, "@
        + update_hint
}

/// The warning a bot starting up logs when the tools lack a runtime.
pub fn runtime_warning(update_hint: &str) -> (r: String)
    ensures
        r@ == runtime_warning_text(update_hint@),
{
    let mut t: Vec<char> = Vec::new();
    append_str(
        &mut t,
        "The YouTube tools are installed without a JavaScript runtime, which YouTube now needs; some tracks will fail to play. To fix it, ",
    );
    append_str(&mut t, update_hint);
    string_of(&t)
}

} // verus!
