//! The config editor's logic, with no window attached.
//!
//! The form holds what the controls hold: text, whole numbers and ticks.
//! `from_config` fills it from a config and `apply` writes it back onto the
//! config it came from, so a form opened and saved untouched gives back the
//! same config (`lemma_form_round_trip`).
//!
//! The five decimal settings are floating-point values in the file. The
//! caller prints them for `from_config` (`NumberTexts`) and parses the form's
//! text for `apply` (`ParsedNumbers`); this module only moves those values.

use vstd::prelude::*;

use crate::admins;
use crate::admins::{join_admins, parse_admin_list};
use crate::config;
use crate::config::{AdminMode, BotConfig, EnabledServices};
use crate::services;
use crate::services::Service;
use crate::text;
use crate::text::{chars_of, is_blank_vec, string_from_str, string_of, to_lowercase, trim_str};

verus! {

/// The admin modes, in the order the dropdown lists them.
pub const ADMIN_MODES: [AdminMode; 4] = [
    AdminMode::Everyone,
    AdminMode::TtRights,
    AdminMode::List,
    AdminMode::Both,
];

/// Descriptions shown in the dropdown, in the same order.
pub const ADMIN_MODE_LABELS: [&'static str; 4] = [
    "Everyone - no restrictions, any user can run every command",
    "TeamTalk server admins - admins defined in your TeamTalk server's user accounts",
    "Username list - only the usernames you enter below",
    "Both - TeamTalk server admins or the username list below",
];

/// Where a mode sits in the dropdown.
pub open spec fn mode_index(mode: AdminMode) -> u32 {
    match mode {
        AdminMode::Everyone => 0,
        AdminMode::TtRights => 1,
        AdminMode::List => 2,
        AdminMode::Both => 3,
    }
}

/// The mode at a dropdown position; anything past the end is `Both`.
pub open spec fn mode_at(index: u32) -> AdminMode {
    if index == 0 {
        AdminMode::Everyone
    } else if index == 1 {
        AdminMode::TtRights
    } else if index == 2 {
        AdminMode::List
    } else {
        AdminMode::Both
    }
}

/// Dropdown position for an admin mode.
pub fn admin_mode_to_index(mode: AdminMode) -> (r: u32)
    ensures
        r == mode_index(mode),
        r < 4,
{
    match mode {
        AdminMode::Everyone => 0,
        AdminMode::TtRights => 1,
        AdminMode::List => 2,
        AdminMode::Both => 3,
    }
}

/// Admin mode for a dropdown position. Anything unexpected becomes `Both`,
/// which is the restrictive choice: a misread must not hand out access.
pub fn index_to_admin_mode(index: u32) -> (r: AdminMode)
    ensures
        r == mode_at(index),
        index >= 4 ==> r == AdminMode::Both,
{
    if index == 0 {
        AdminMode::Everyone
    } else if index == 1 {
        AdminMode::TtRights
    } else if index == 2 {
        AdminMode::List
    } else {
        AdminMode::Both
    }
}

/// Every mode comes back from its dropdown position, and the positions are
/// exactly the four places of the list.
pub proof fn lemma_admin_mode_index_round_trip(mode: AdminMode)
    ensures
        mode_at(mode_index(mode)) == mode,
        mode_index(mode) < 4,
{
}

/// Whether the admin username list is used by this mode, and so whether the
/// field should be editable.
pub fn mode_uses_username_list(index: u32) -> (r: bool)
    ensures
        r == (mode_at(index) == AdminMode::List || mode_at(index) == AdminMode::Both),
{
    match index_to_admin_mode(index) {
        AdminMode::List | AdminMode::Both => true,
        _ => false,
    }
}

/// The entry to select in a dropdown for a value: the first item matching it
/// ignoring ASCII case, or the first item when none does.
pub fn select_or_first(items: &[&str], value: &str) -> (r: usize)
    ensures
        (exists|k: int| 0 <= k < items@.len() && text::eq_ignore_ascii_case(#[trigger] items@[k]@, value@))
            ==> {
            &&& r < items@.len()
            &&& text::eq_ignore_ascii_case(items@[r as int]@, value@)
            &&& forall|k: int| 0 <= k < r ==> !text::eq_ignore_ascii_case(#[trigger] items@[k]@, value@)
        },
        !(exists|k: int| 0 <= k < items@.len() && text::eq_ignore_ascii_case(#[trigger] items@[k]@, value@))
            ==> r == 0,
{
    let v = chars_of(value);
    let mut i: usize = 0;
    while i < items.len()
        invariant
            i <= items.len(),
            v@ == value@,
            forall|k: int| 0 <= k < i ==> !text::eq_ignore_ascii_case(#[trigger] items@[k]@, value@),
        decreases items.len() - i,
    {
        if crate::text::eq_ignore_ascii_case_vec(&chars_of(items[i]), &v) {
            return i;
        }
        i = i + 1;
    }
    0
}

/// What the service row of the form shows: the default-service dropdown
/// when both services are enabled (`None`), otherwise the one service that
/// is, selected and hidden.
pub fn service_row(spotify: bool, youtube: bool) -> (r: Option<&'static str>)
    ensures
        spotify && youtube ==> r is None,
        !(spotify && youtube) && spotify ==> (r matches Some(n) && n@ == "Spotify"@),
        !spotify ==> (r matches Some(n) && n@ == "YouTube"@),
{
    if spotify && youtube {
        None
    } else if spotify {
        Some("Spotify")
    } else {
        Some("YouTube")
    }
}

/// Everything the form holds, as text and numbers straight from the controls.
#[derive(Debug, Clone, Default, PartialEq)]
pub struct ConfigForm {
    // Server
    pub host: String,
    pub tcp_port: i32,
    pub udp_port: i32,
    pub encrypted: bool,
    pub username: String,
    pub password: String,
    pub bot_name: String,
    pub channel_name: String,
    pub channel_password: String,
    pub bot_gender: String,
    pub spotify_enabled: bool,
    pub youtube_enabled: bool,
    pub default_service: String,
    pub license_name: String,
    pub license_key: String,
    pub youtube_cookies_file: String,
    pub default_language: String,
    pub admin_mode_index: u32,
    pub admin_users: String,
    pub rejoin_after_kick: bool,
    pub rejoin_after_kick_seconds: i32,
    // Audio
    pub spotify_quality: String,
    pub spotify_enable_normalization: bool,
    pub normalisation_gain_db: String,
    pub normalisation_type: String,
    pub normalisation_method: String,
    pub normalisation_threshold_dbfs: String,
    pub normalisation_knee_db: String,
    pub volume: i32,
    pub max_volume: i32,
    pub jitter_buffer_ms: i32,
    pub volume_ramp_step: String,
    // Radio and search
    pub radio_enabled: bool,
    pub radio_batch_size: i32,
    pub radio_delay: String,
    pub search_limit: i32,
}

/// The config's five decimal settings as they print (`to_string`), for the
/// form's text boxes.
#[derive(Debug, Clone, Default, PartialEq)]
pub struct NumberTexts {
    pub normalisation_gain_db: String,
    pub normalisation_threshold_dbfs: String,
    pub normalisation_knee_db: String,
    pub volume_ramp_step: String,
    pub radio_delay: String,
}

/// What the form's five decimal text boxes read as once trimmed and parsed,
/// as bit patterns (`f64::to_bits` for the first three, `f32::to_bits` for
/// the last two); `None` where the text is not a number.
#[derive(Debug, Clone, Copy, Default, PartialEq, Eq)]
pub struct ParsedNumbers {
    pub normalisation_gain_db: Option<u64>,
    pub normalisation_threshold_dbfs: Option<u64>,
    pub normalisation_knee_db: Option<u64>,
    pub volume_ramp_step: Option<u32>,
    pub radio_delay: Option<u32>,
}

/// What a licence box becomes: its trimmed text, or absent when blank.
pub open spec fn licence_value(s: Seq<char>) -> Option<Seq<char>> {
    if text::trim(s).len() == 0 {
        None
    } else {
        Some(text::trim(s))
    }
}

/// A whole number from a control as a byte setting: clamped to 0..=255.
pub open spec fn byte_setting(x: i32) -> u8 {
    if x < 0 {
        0
    } else if x > 255 {
        255
    } else {
        x as u8
    }
}

/// A whole number from a control as a count: negative becomes 0.
pub open spec fn count_setting(x: i32) -> u32 {
    if x < 0 {
        0
    } else {
        x as u32
    }
}

/// The default service a saved form names: the only enabled service when
/// there is one, else whatever the dropdown text reads as.
pub open spec fn chosen_service(e: EnabledServices, dropdown: Seq<char>) -> Service {
    match config::only_service(e) {
        Some(s) => s,
        None => match services::service_named(dropdown) {
            Some(s) => s,
            None => Service::Spotify,
        },
    }
}

/// The language a saved form names: its trimmed text lowercased, English
/// when that leaves nothing.
pub open spec fn chosen_language(raw: Seq<char>) -> Seq<char> {
    let l = text::lowercase(text::trim(raw));
    if l.len() == 0 {
        "en"@
    } else {
        l
    }
}

/// The form `from_config` fills from `c`, with the decimal settings printed
/// as `n` gives them.
pub open spec fn form_shows(c: BotConfig, n: NumberTexts, f: ConfigForm) -> bool {
    &&& f.host@ == c.host@
    &&& f.tcp_port == c.tcp_port
    &&& f.udp_port == c.udp_port
    &&& f.encrypted == c.encrypted
    &&& f.username@ == c.username@
    &&& f.password@ == c.password@
    &&& f.bot_name@ == c.bot_name@
    &&& f.channel_name@ == c.channel_name@
    &&& f.channel_password@ == c.channel_password@
    &&& f.bot_gender@ == c.bot_gender@
    &&& f.spotify_enabled == c.enabled_services.spotify
    &&& f.youtube_enabled == c.enabled_services.youtube
    &&& f.default_service@ == services::service_label(c.default_service)
    &&& f.license_name@ == (match c.license_name {
        Some(s) => s@,
        None => Seq::empty(),
    })
    &&& f.license_key@ == (match c.license_key {
        Some(s) => s@,
        None => Seq::empty(),
    })
    &&& f.youtube_cookies_file@ == c.youtube_cookies_file@
    &&& f.default_language@ == c.default_language@
    &&& f.admin_mode_index == mode_index(c.admin_mode)
    &&& f.admin_users@ == admins::joined(config::string_views(c.admins@), admins::list_separator())
    &&& f.rejoin_after_kick == (c.rejoin_after_kick_seconds is Some)
    &&& f.rejoin_after_kick_seconds == (match c.rejoin_after_kick_seconds {
        Some(s) => s as i32,
        None => 0i32,
    })
    &&& f.spotify_quality@ == c.spotify_quality@
    &&& f.spotify_enable_normalization == c.spotify_enable_normalization
    &&& f.normalisation_gain_db@ == n.normalisation_gain_db@
    &&& f.normalisation_type@ == c.normalisation_type@
    &&& f.normalisation_method@ == c.normalisation_method@
    &&& f.normalisation_threshold_dbfs@ == n.normalisation_threshold_dbfs@
    &&& f.normalisation_knee_db@ == n.normalisation_knee_db@
    &&& f.volume == c.volume as i32
    &&& f.max_volume == c.max_volume as i32
    &&& f.jitter_buffer_ms == c.jitter_buffer_ms as i32
    &&& f.volume_ramp_step@ == n.volume_ramp_step@
    &&& f.radio_enabled == c.radio_enabled
    &&& f.radio_batch_size == c.radio_batch_size as i32
    &&& f.radio_delay@ == n.radio_delay@
    &&& f.search_limit == c.search_limit as i32
}

/// The server and identity settings of the config `apply` writes.
pub open spec fn server_applied(f: ConfigForm, c: BotConfig) -> bool {
    &&& c.host@ == text::trim(f.host@)
    &&& c.tcp_port == f.tcp_port
    &&& c.udp_port == f.udp_port
    &&& c.encrypted == f.encrypted
    &&& c.username@ == f.username@
    &&& c.password@ == f.password@
    &&& c.bot_name@ == f.bot_name@
    &&& c.channel_name@ == (if text::is_blank(f.channel_name@) {
        "/"@
    } else {
        f.channel_name@
    })
    &&& c.channel_password@ == f.channel_password@
    &&& c.bot_gender@ == f.bot_gender@
    &&& c.enabled_services == EnabledServices {
        spotify: f.spotify_enabled,
        youtube: f.youtube_enabled,
    }
    &&& c.default_service == chosen_service(c.enabled_services, f.default_service@)
    &&& c.youtube_cookies_file@ == f.youtube_cookies_file@
    &&& text::opt_chars(c.license_name) == licence_value(f.license_name@)
    &&& text::opt_chars(c.license_key) == licence_value(f.license_key@)
    &&& c.admin_mode == mode_at(f.admin_mode_index)
    &&& config::string_views(c.admins@) == admins::admin_list(f.admin_users@)
    &&& c.rejoin_after_kick_seconds == (if f.rejoin_after_kick {
        Some(count_setting(f.rejoin_after_kick_seconds))
    } else {
        None
    })
    &&& c.default_language@ == chosen_language(f.default_language@)
}

/// The audio, radio and search settings of the config `apply` writes; a
/// decimal box that does not parse keeps the value `original` had.
pub open spec fn audio_applied(
    f: ConfigForm,
    original: BotConfig,
    p: ParsedNumbers,
    c: BotConfig,
) -> bool {
    &&& c.spotify_quality@ == f.spotify_quality@
    &&& c.spotify_enable_normalization == f.spotify_enable_normalization
    &&& c.normalisation_pregain_db_bits == (match p.normalisation_gain_db {
        Some(b) => b,
        None => original.normalisation_pregain_db_bits,
    })
    &&& c.normalisation_type@ == text::lowercase(f.normalisation_type@)
    &&& c.normalisation_method@ == text::lowercase(f.normalisation_method@)
    &&& c.normalisation_threshold_dbfs_bits == (match p.normalisation_threshold_dbfs {
        Some(b) => b,
        None => original.normalisation_threshold_dbfs_bits,
    })
    &&& c.normalisation_knee_db_bits == (match p.normalisation_knee_db {
        Some(b) => b,
        None => original.normalisation_knee_db_bits,
    })
    &&& c.volume == byte_setting(f.volume)
    &&& c.max_volume == byte_setting(f.max_volume)
    &&& c.jitter_buffer_ms == count_setting(f.jitter_buffer_ms)
    &&& c.volume_ramp_step_bits == (match p.volume_ramp_step {
        Some(b) => b,
        None => original.volume_ramp_step_bits,
    })
    &&& c.radio_enabled == f.radio_enabled
    &&& c.radio_batch_size == byte_setting(f.radio_batch_size)
    &&& c.radio_delay_bits == (match p.radio_delay {
        Some(b) => b,
        None => original.radio_delay_bits,
    })
    &&& c.search_limit == byte_setting(f.search_limit)
}

/// The settings the form has no control for, kept from `original`, the
/// config the form was opened on.
pub open spec fn hidden_kept(original: BotConfig, c: BotConfig) -> bool {
    &&& c.repeat_track == original.repeat_track
    &&& c.repeat_queue == original.repeat_queue
    &&& c.shuffle == original.shuffle
}

/// The config `apply` writes from form `f` onto `original`.
pub open spec fn form_applied(
    f: ConfigForm,
    original: BotConfig,
    p: ParsedNumbers,
    c: BotConfig,
) -> bool {
    &&& server_applied(f, c)
    &&& audio_applied(f, original, p, c)
    &&& hidden_kept(original, c)
}

/// A licence setting the form carries unchanged: absent, or already trimmed
/// and not empty.
pub open spec fn licence_kept(o: Option<String>) -> bool {
    match o {
        Some(s) => s@.len() > 0 && text::trim(s@) == s@,
        None => true,
    }
}

/// The configs a form carries unchanged: every setting that saving
/// normalises (trimmed host, non-blank channel, a default service that
/// agrees with a single enabled one, trimmed licences, listable admin names,
/// numbers that fit the form's whole-number boxes, lowercase language and
/// normalisation words) already in that form.
pub open spec fn form_carries(c: BotConfig) -> bool {
    &&& text::trim(c.host@) == c.host@
    &&& !text::is_blank(c.channel_name@)
    &&& (config::only_service(c.enabled_services) is None || config::only_service(
        c.enabled_services,
    ) == Some(c.default_service))
    &&& licence_kept(c.license_name)
    &&& licence_kept(c.license_key)
    &&& (forall|i: int|
        0 <= i < c.admins@.len() ==> admins::listable_name(#[trigger] c.admins@[i]@))
    &&& (c.rejoin_after_kick_seconds matches Some(s) ==> s <= i32::MAX)
    &&& c.jitter_buffer_ms <= i32::MAX
    &&& c.default_language@.len() > 0
    &&& text::trim(c.default_language@) == c.default_language@
    &&& text::lowercase(c.default_language@) == c.default_language@
    &&& text::lowercase(c.normalisation_type@) == c.normalisation_type@
    &&& text::lowercase(c.normalisation_method@) == c.normalisation_method@
}

/// Each decimal box read back as the config's own value, or not at all.
pub open spec fn parsed_keeps(c: BotConfig, p: ParsedNumbers) -> bool {
    &&& (p.normalisation_gain_db is None || p.normalisation_gain_db == Some(
        c.normalisation_pregain_db_bits,
    ))
    &&& (p.normalisation_threshold_dbfs is None || p.normalisation_threshold_dbfs == Some(
        c.normalisation_threshold_dbfs_bits,
    ))
    &&& (p.normalisation_knee_db is None || p.normalisation_knee_db == Some(
        c.normalisation_knee_db_bits,
    ))
    &&& (p.volume_ramp_step is None || p.volume_ramp_step == Some(c.volume_ramp_step_bits))
    &&& (p.radio_delay is None || p.radio_delay == Some(c.radio_delay_bits))
}

/// Opening the editor and saving without touching anything leaves the
/// config as it was: the form filled from `c` and applied back onto `c`
/// gives `c`'s settings, whenever `c` is already in the form the editor
/// saves and each decimal box reads back as the value it showed (or does not
/// parse, which keeps the value too).
pub proof fn lemma_form_round_trip(
    c: BotConfig,
    numbers: NumberTexts,
    parsed: ParsedNumbers,
    form: ConfigForm,
    saved: BotConfig,
)
    requires
        form_shows(c, numbers, form),
        form_applied(form, c, parsed, saved),
        form_carries(c),
        parsed_keeps(c, parsed),
    ensures
        config::same_settings(saved, c),
{
    assert(text::trim_start(Seq::<char>::empty()) == Seq::<char>::empty());
    assert(text::trim(Seq::<char>::empty()) == Seq::<char>::empty());
    services::lemma_label_names_service(c.default_service);
    let names = config::string_views(c.admins@);
    assert forall|i: int| 0 <= i < names.len() implies admins::listable_name(#[trigger] names[i]) by {
        assert(names[i] == c.admins@[i]@);
    }
    admins::lemma_admin_list_round_trip(names);
    match c.rejoin_after_kick_seconds {
        Some(s) => {
            assert((s as i32) as int == s as int);
        },
        None => {},
    }
    assert((c.jitter_buffer_ms as i32) as int == c.jitter_buffer_ms as int);
}

/// What the editor saves is a config it carries unchanged: opening a saved
/// config and saving it again without touching anything gives the same
/// settings (`lemma_form_round_trip`), whatever was typed, as long as the
/// language and normalisation words typed were ASCII.
pub proof fn lemma_saved_config_is_carried(
    form: ConfigForm,
    original: BotConfig,
    parsed: ParsedNumbers,
    saved: BotConfig,
)
    requires
        form_applied(form, original, parsed, saved),
        text::is_ascii_text(text::trim(form.default_language@)),
        text::is_ascii_text(form.normalisation_type@),
        text::is_ascii_text(form.normalisation_method@),
    ensures
        form_carries(saved),
{
    text::lemma_trim_idempotent(form.host@);
    reveal_strlit("/");
    assert(!text::is_ws('/'));
    assert(!text::is_blank("/"@)) by {
        assert("/"@[0] == '/');
    }
    match saved.license_name {
        Some(x) => text::lemma_trim_idempotent(form.license_name@),
        None => {},
    }
    match saved.license_key {
        Some(x) => text::lemma_trim_idempotent(form.license_key@),
        None => {},
    }
    admins::lemma_admin_list_listable(form.admin_users@);
    let names = config::string_views(saved.admins@);
    assert forall|i: int| 0 <= i < saved.admins@.len() implies admins::listable_name(
        #[trigger] saved.admins@[i]@,
    ) by {
        assert(names[i] == saved.admins@[i]@);
    }
    // The language.
    let raw = text::trim(form.default_language@);
    text::lemma_trim_idempotent(form.default_language@);
    text::lemma_trim_ascii_lower(raw);
    text::lemma_ascii_lower_settles(raw);
    let l = text::ascii_lower(raw);
    if l.len() == 0 {
        reveal_strlit("en");
        let en = "en"@;
        assert(en.len() == 2);
        assert(!text::is_ws(en[0]) && !text::is_ws(en[1]));
        assert(text::trim_start(en) == en);
        assert(text::trim_end(en) == en);
        assert(text::is_ascii_text(en));
        assert(text::ascii_lower(en) =~= en);
    }
    // The normalisation words.
    text::lemma_ascii_lower_settles(form.normalisation_type@);
    text::lemma_ascii_lower_settles(form.normalisation_method@);
}

/// The problems `validate` reports, in order.
pub open spec fn form_problems(f: ConfigForm) -> Seq<Seq<char>> {
    let a = config::push_if(Seq::empty(), text::is_blank(f.host@), "Host is required."@);
    let b = config::push_if(a, text::is_blank(f.username@), "Username is required."@);
    let c = config::push_if(
        b,
        f.volume > f.max_volume,
        "Default volume cannot exceed max volume."@,
    );
    config::push_if(
        c,
        !f.spotify_enabled && !f.youtube_enabled,
        "At least one service must be enabled."@,
    )
}

/// The volume problem is reported exactly when the default volume is above
/// the maximum: a default volume equal to the maximum is fine.
pub proof fn lemma_volume_problem_iff_over(f: ConfigForm)
    ensures
        form_problems(f).contains("Default volume cannot exceed max volume."@) <==> f.volume
            > f.max_volume,
{
    reveal_strlit("Host is required.");
    reveal_strlit("Username is required.");
    reveal_strlit("Default volume cannot exceed max volume.");
    reveal_strlit("At least one service must be enabled.");
    let v = "Default volume cannot exceed max volume."@;
    let h = "Host is required."@;
    let u = "Username is required."@;
    let a = "At least one service must be enabled."@;
    assert(h != v) by {
        assert(h[0] != v[0]);
    }
    assert(u != v) by {
        assert(u[0] != v[0]);
    }
    assert(a != v) by {
        assert(a[0] != v[0]);
    }
    let p1 = config::push_if(Seq::empty(), text::is_blank(f.host@), h);
    let p2 = config::push_if(p1, text::is_blank(f.username@), u);
    let p3 = config::push_if(p2, f.volume > f.max_volume, v);
    let p4 = config::push_if(p3, !f.spotify_enabled && !f.youtube_enabled, a);
    assert(forall|i: int| 0 <= i < p2.len() ==> p2[i] == h || p2[i] == u);
    assert(!p2.contains(v));
    if f.volume > f.max_volume {
        assert(p3[p3.len() - 1] == v);
        assert(p4[p3.len() - 1] == v);
    } else {
        assert(p3 == p2);
        assert(forall|i: int| 0 <= i < p4.len() ==> p4[i] != v);
    }
}

/// A form with a host, a username and a service enabled, whose default
/// volume is not above its maximum, has nothing to report and can be saved.
pub proof fn lemma_good_form_has_no_problems(f: ConfigForm)
    requires
        !text::is_blank(f.host@),
        !text::is_blank(f.username@),
        f.spotify_enabled || f.youtube_enabled,
        f.volume <= f.max_volume,
    ensures
        form_problems(f).len() == 0,
{
}

/// A licence box's value: its trimmed text, or `None` when blank.
pub fn non_empty(s: &str) -> (r: Option<String>)
    ensures
        text::opt_chars(r) == licence_value(s@),
{
    let t = trim_str(s);
    if t.len() == 0 {
        None
    } else {
        Some(string_of(&t))
    }
}

fn copy_text(s: &String) -> (r: String)
    ensures
        r@ == s@,
{
    s.clone()
}

fn byte_from(x: i32) -> (r: u8)
    ensures
        r == byte_setting(x),
{
    if x < 0 {
        0
    } else if x > 255 {
        255
    } else {
        x as u8
    }
}

fn count_from(x: i32) -> (r: u32)
    ensures
        r == count_setting(x),
{
    if x < 0 {
        0
    } else {
        x as u32
    }
}

fn pick_u64(p: Option<u64>, fallback: u64) -> (r: u64)
    ensures
        r == (match p {
            Some(b) => b,
            None => fallback,
        }),
{
    match p {
        Some(b) => b,
        None => fallback,
    }
}

fn pick_u32(p: Option<u32>, fallback: u32) -> (r: u32)
    ensures
        r == (match p {
            Some(b) => b,
            None => fallback,
        }),
{
    match p {
        Some(b) => b,
        None => fallback,
    }
}

fn shown_licence(o: &Option<String>) -> (r: String)
    ensures
        r@ == (match *o {
            Some(s) => s@,
            None => Seq::empty(),
        }),
{
    match o {
        Some(s) => s.clone(),
        None => String::new(),
    }
}

impl ConfigForm {
    /// Fill the form from a config, ready to show; the decimal settings come
    /// printed in `numbers`.
    pub fn from_config(cfg: &BotConfig, numbers: NumberTexts) -> (r: ConfigForm)
        ensures
            form_shows(*cfg, numbers, r),
    {
        let rejoin_seconds: i32 = match cfg.rejoin_after_kick_seconds {
            Some(s) => s as i32,
            None => 0,
        };
        ConfigForm {
            host: copy_text(&cfg.host),
            tcp_port: cfg.tcp_port,
            udp_port: cfg.udp_port,
            encrypted: cfg.encrypted,
            username: copy_text(&cfg.username),
            password: copy_text(&cfg.password),
            bot_name: copy_text(&cfg.bot_name),
            channel_name: copy_text(&cfg.channel_name),
            channel_password: copy_text(&cfg.channel_password),
            bot_gender: copy_text(&cfg.bot_gender),
            spotify_enabled: cfg.enabled_services.spotify,
            youtube_enabled: cfg.enabled_services.youtube,
            default_service: string_from_str(cfg.default_service.name()),
            license_name: shown_licence(&cfg.license_name),
            license_key: shown_licence(&cfg.license_key),
            youtube_cookies_file: copy_text(&cfg.youtube_cookies_file),
            default_language: copy_text(&cfg.default_language),
            admin_mode_index: admin_mode_to_index(cfg.admin_mode),
            admin_users: join_admins(cfg.admins.as_slice()),
            rejoin_after_kick: cfg.rejoin_after_kick_seconds.is_some(),
            rejoin_after_kick_seconds: rejoin_seconds,
            spotify_quality: copy_text(&cfg.spotify_quality),
            spotify_enable_normalization: cfg.spotify_enable_normalization,
            normalisation_gain_db: numbers.normalisation_gain_db,
            normalisation_type: copy_text(&cfg.normalisation_type),
            normalisation_method: copy_text(&cfg.normalisation_method),
            normalisation_threshold_dbfs: numbers.normalisation_threshold_dbfs,
            normalisation_knee_db: numbers.normalisation_knee_db,
            volume: cfg.volume as i32,
            max_volume: cfg.max_volume as i32,
            jitter_buffer_ms: cfg.jitter_buffer_ms as i32,
            volume_ramp_step: numbers.volume_ramp_step,
            radio_enabled: cfg.radio_enabled,
            radio_batch_size: cfg.radio_batch_size as i32,
            radio_delay: numbers.radio_delay,
            search_limit: cfg.search_limit as i32,
        }
    }

    /// Write the form onto `original`: every setting the form shows comes
    /// from the form, the rest from `original`, and a decimal box whose text
    /// did not parse (`None` in `parsed`) keeps the original's value.
    pub fn apply(&self, original: &BotConfig, parsed: ParsedNumbers) -> (r: BotConfig)
        ensures
            form_applied(*self, *original, parsed, r),
            !text::is_blank(self.default_language@) ==> r.default_language@ == text::lowercase(
                text::trim(self.default_language@),
            ),
    {
        let host = string_of(&trim_str(self.host.as_str()));
        let channel_name = if is_blank_vec(&chars_of(self.channel_name.as_str())) {
            string_from_str("/")
        } else {
            copy_text(&self.channel_name)
        };
        let enabled = EnabledServices { spotify: self.spotify_enabled, youtube: self.youtube_enabled };
        let default_service = match enabled.only() {
            Some(s) => s,
            None => Service::parse_or_default(self.default_service.as_str()),
        };
        let rejoin = if self.rejoin_after_kick {
            Some(count_from(self.rejoin_after_kick_seconds))
        } else {
            None
        };
        let trimmed_language = string_of(&trim_str(self.default_language.as_str()));
        let lowered = to_lowercase(trimmed_language.as_str());
        proof {
            text::lemma_trim_empty_iff_blank(self.default_language@);
        }
        let default_language = if lowered.as_str().unicode_len() == 0 {
            string_from_str("en")
        } else {
            lowered
        };
        BotConfig {
            host,
            tcp_port: self.tcp_port,
            udp_port: self.udp_port,
            encrypted: self.encrypted,
            bot_name: copy_text(&self.bot_name),
            username: copy_text(&self.username),
            password: copy_text(&self.password),
            channel_name,
            channel_password: copy_text(&self.channel_password),
            bot_gender: copy_text(&self.bot_gender),
            admin_mode: index_to_admin_mode(self.admin_mode_index),
            admins: parse_admin_list(self.admin_users.as_str()),
            default_language,
            license_name: non_empty(self.license_name.as_str()),
            license_key: non_empty(self.license_key.as_str()),
            spotify_quality: copy_text(&self.spotify_quality),
            spotify_enable_normalization: self.spotify_enable_normalization,
            normalisation_type: to_lowercase(self.normalisation_type.as_str()),
            normalisation_method: to_lowercase(self.normalisation_method.as_str()),
            normalisation_pregain_db_bits: pick_u64(
                parsed.normalisation_gain_db,
                original.normalisation_pregain_db_bits,
            ),
            normalisation_threshold_dbfs_bits: pick_u64(
                parsed.normalisation_threshold_dbfs,
                original.normalisation_threshold_dbfs_bits,
            ),
            normalisation_knee_db_bits: pick_u64(
                parsed.normalisation_knee_db,
                original.normalisation_knee_db_bits,
            ),
            volume: byte_from(self.volume),
            max_volume: byte_from(self.max_volume),
            jitter_buffer_ms: count_from(self.jitter_buffer_ms),
            volume_ramp_step_bits: pick_u32(parsed.volume_ramp_step, original.volume_ramp_step_bits),
            radio_enabled: self.radio_enabled,
            radio_batch_size: byte_from(self.radio_batch_size),
            radio_delay_bits: pick_u32(parsed.radio_delay, original.radio_delay_bits),
            search_limit: byte_from(self.search_limit),
            repeat_track: original.repeat_track,
            repeat_queue: original.repeat_queue,
            shuffle: original.shuffle,
            default_service,
            enabled_services: enabled,
            youtube_cookies_file: copy_text(&self.youtube_cookies_file),
            rejoin_after_kick_seconds: rejoin,
        }
    }

    /// Problems that must be fixed before saving, in a fixed order. Empty
    /// means the form is good.
    pub fn validate(&self) -> (r: Vec<String>)
        ensures
            config::string_views(r@) == form_problems(*self),
    {
        let mut errors: Vec<String> = Vec::new();
        proof {
            reveal_strlit("Host is required.");
            reveal_strlit("Username is required.");
            reveal_strlit("Default volume cannot exceed max volume.");
            reveal_strlit("At least one service must be enabled.");
        }
        let ghost e0 = config::string_views(errors@);
        assert(e0 =~= Seq::<Seq<char>>::empty());
        if is_blank_vec(&chars_of(self.host.as_str())) {
            errors.push(string_from_str("Host is required."));
        }
        let ghost e1 = config::string_views(errors@);
        assert(e1 =~= config::push_if(e0, text::is_blank(self.host@), "Host is required."@));
        if is_blank_vec(&chars_of(self.username.as_str())) {
            errors.push(string_from_str("Username is required."));
        }
        let ghost e2 = config::string_views(errors@);
        assert(e2 =~= config::push_if(e1, text::is_blank(self.username@), "Username is required."@));
        if self.volume > self.max_volume {
            errors.push(string_from_str("Default volume cannot exceed max volume."));
        }
        let ghost e3 = config::string_views(errors@);
        assert(e3 =~= config::push_if(
            e2,
            self.volume > self.max_volume,
            "Default volume cannot exceed max volume."@,
        ));
        if !self.spotify_enabled && !self.youtube_enabled {
            errors.push(string_from_str("At least one service must be enabled."));
        }
        let ghost e4 = config::string_views(errors@);
        assert(e4 =~= config::push_if(
            e3,
            !self.spotify_enabled && !self.youtube_enabled,
            "At least one service must be enabled."@,
        ));
        errors
    }
}

} // verus!
