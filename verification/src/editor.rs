//! How the config editor reads each answer. Every prompt is seeded with the
//! current value and an empty answer keeps it; an answer that matches
//! nothing is refused rather than written into the config.

use vstd::prelude::*;

use crate::config::{AdminMode, EnabledServices};
use crate::text;
use crate::text::{
    append_seq, append_str, chars_of, eq_ignore_ascii_case_vec, parse_unsigned_vec, string_from_str,
    string_of, trim_vec, vec_eq, vec_eq_str,
};

verus! {

/// The bot genders offered.
pub const GENDERS: [&'static str; 3] = ["neutral", "male", "female"];

/// The Spotify streaming qualities offered.
pub const QUALITIES: [&'static str; 3] = ["VERY_HIGH", "HIGH", "NORMAL"];

/// The normalisation types offered.
pub const NORM_TYPES: [&'static str; 3] = ["auto", "album", "track"];

/// The normalisation methods offered.
pub const NORM_METHODS: [&'static str; 2] = ["dynamic", "basic"];

/// A yes/no answer: empty keeps `current`; y, yes, on, true and n, no, off,
/// false in any case; anything else is no answer.
pub open spec fn bool_answer(input: Seq<char>, current: bool) -> Option<bool> {
    let w = text::lowercase(text::trim(input));
    if w.len() == 0 {
        Some(current)
    } else if w == "y"@ || w == "yes"@ || w == "on"@ || w == "true"@ {
        Some(true)
    } else if w == "n"@ || w == "no"@ || w == "off"@ || w == "false"@ {
        Some(false)
    } else {
        None
    }
}

/// A yes/no answer ignores letter case: an ASCII answer reads as its
/// lowercase form does, so any case of y/yes/on/true is yes and any case of
/// n/no/off/false is no.
pub proof fn lemma_bool_answer_ignores_case(input: Seq<char>, current: bool)
    requires
        text::is_ascii_text(input),
    ensures
        bool_answer(input, current) == bool_answer(text::ascii_lower(input), current),
        text::trim(input).len() > 0 && (text::eq_ignore_ascii_case(text::trim(input), "y"@)
            || text::eq_ignore_ascii_case(text::trim(input), "yes"@) || text::eq_ignore_ascii_case(
            text::trim(input),
            "on"@,
        ) || text::eq_ignore_ascii_case(text::trim(input), "true"@)) ==> bool_answer(input, current)
            == Some(true),
        text::trim(input).len() > 0 && (text::eq_ignore_ascii_case(text::trim(input), "n"@)
            || text::eq_ignore_ascii_case(text::trim(input), "no"@) || text::eq_ignore_ascii_case(
            text::trim(input),
            "off"@,
        ) || text::eq_ignore_ascii_case(text::trim(input), "false"@)) ==> bool_answer(input, current)
            == Some(false),
{
    let t = text::trim(input);
    text::lemma_trim_then_ascii_lower(input);
    text::lemma_trim_ascii_text(input);
    text::lemma_ascii_lower_settles(t);
    assert(text::lowercase(t) == text::ascii_lower(t));
    assert(text::trim(text::ascii_lower(input)) == text::ascii_lower(t));
    assert(text::lowercase(text::ascii_lower(t)) == text::ascii_lower(t));
    reveal_strlit("y");
    reveal_strlit("yes");
    reveal_strlit("on");
    reveal_strlit("true");
    reveal_strlit("n");
    reveal_strlit("no");
    reveal_strlit("off");
    reveal_strlit("false");
    assert(text::ascii_lower("y"@) =~= "y"@);
    assert(text::ascii_lower("yes"@) =~= "yes"@);
    assert(text::ascii_lower("on"@) =~= "on"@);
    assert(text::ascii_lower("true"@) =~= "true"@);
    assert(text::ascii_lower("n"@) =~= "n"@);
    assert(text::ascii_lower("no"@) =~= "no"@);
    assert(text::ascii_lower("off"@) =~= "off"@);
    assert(text::ascii_lower("false"@) =~= "false"@);
    assert("n"@[0] != "y"@[0] && "no"@[0] != "on"@[0] && "off"@[0] != "yes"@[0]);
    assert("n"@ != "y"@ && "no"@ != "on"@ && "off"@ != "yes"@);
    assert("n"@.len() != "yes"@.len() && "n"@.len() != "on"@.len() && "n"@.len() != "true"@.len());
}

/// Read a yes/no answer, where empty means "leave it as it is": the answer
/// trimmed and lowercased (`str::to_lowercase`).
pub fn answer_bool(input: &str, current: bool) -> (r: Option<bool>)
    ensures
        r == bool_answer(input@, current),
{
    let trimmed = string_of(&trim_vec(&chars_of(input)));
    let lowered = text::to_lowercase(trimmed.as_str());
    let w = chars_of(lowered.as_str());
    if w.len() == 0 {
        Some(current)
    } else if vec_eq_str(&w, "y") || vec_eq_str(&w, "yes") || vec_eq_str(&w, "on") || vec_eq_str(
        &w,
        "true",
    ) {
        Some(true)
    } else if vec_eq_str(&w, "n") || vec_eq_str(&w, "no") || vec_eq_str(&w, "off") || vec_eq_str(
        &w,
        "false",
    ) {
        Some(false)
    } else {
        None
    }
}

pub open spec fn str_views(v: Seq<&str>) -> Seq<Seq<char>> {
    v.map_values(|s: &str| s@)
}

/// A choice from a fixed list: empty keeps `current`; a number picks the
/// option beside it (counting from 1) or nothing when out of range; anything
/// else picks the first option equal to it ignoring ASCII case.
pub open spec fn choice_answer(input: Seq<char>, options: Seq<Seq<char>>, current: Seq<char>) -> Option<
    Seq<char>,
> {
    let t = text::trim(input);
    if t.len() == 0 {
        Some(current)
    } else {
        match text::parse_unsigned(t, usize::MAX as int) {
            Some(n) => if 1 <= n <= options.len() {
                Some(options[n - 1])
            } else {
                None
            },
            None => if exists|i: int|
                0 <= i < options.len() && text::eq_ignore_ascii_case(options[i], t) {
                Some(
                    options[choose|i: int|
                        0 <= i < options.len() && text::eq_ignore_ascii_case(options[i], t)
                            && forall|j: int|
                            0 <= j < i ==> !text::eq_ignore_ascii_case(options[j], t)],
                )
            } else {
                None
            },
        }
    }
}

/// A typed option picks the first option equal to it ignoring ASCII case:
/// where the trimmed answer is not a number and some option matches it, the
/// answer is the option at the least matching index.
pub proof fn lemma_name_picks_first_option(input: Seq<char>, options: Seq<Seq<char>>, current: Seq<char>)
    requires
        text::trim(input).len() > 0,
        text::parse_unsigned(text::trim(input), usize::MAX as int) is None,
        exists|i: int| 0 <= i < options.len() && text::eq_ignore_ascii_case(options[i], text::trim(input)),
    ensures
        exists|i: int|
            0 <= i < options.len() && text::eq_ignore_ascii_case(options[i], text::trim(input))
                && (forall|j: int|
                0 <= j < i ==> !text::eq_ignore_ascii_case(options[j], text::trim(input)))
                && choice_answer(input, options, current) == Some(#[trigger] options[i]),
{
    let t = text::trim(input);
    let p = |i: int| text::eq_ignore_ascii_case(options[i], t);
    let k = choose|i: int| 0 <= i < options.len() && text::eq_ignore_ascii_case(options[i], t);
    assert(p(k));
    text::lemma_least_index(p, options.len() as int);
    let w = choose|i: int|
        0 <= i < options.len() && #[trigger] p(i) && forall|j: int| 0 <= j < i ==> !#[trigger] p(j);
    assert forall|j: int| 0 <= j < w implies !text::eq_ignore_ascii_case(options[j], t) by {
        assert(!p(j));
    }
    assert(p(w));
    let c = choose|i: int|
        0 <= i < options.len() && text::eq_ignore_ascii_case(options[i], t) && forall|j: int|
            0 <= j < i ==> !text::eq_ignore_ascii_case(options[j], t);
    if c < w {
        assert(!p(c));
    } else if w < c {
        assert(!text::eq_ignore_ascii_case(options[w], t));
    }
    assert(choice_answer(input, options, current) == Some(options[w]));
}

/// Read a choice from a fixed list, by number or by name.
pub fn answer_choice(input: &str, options: &[&str], current: &str) -> (r: Option<String>)
    ensures
        match r {
            Some(s) => choice_answer(input@, str_views(options@), current@) == Some(s@),
            None => choice_answer(input@, str_views(options@), current@) is None,
        },
{
    let t = trim_vec(&chars_of(input));
    if t.len() == 0 {
        return Some(string_from_str(current));
    }
    let ghost opts = str_views(options@);
    match parse_unsigned_vec(&t, usize::MAX as u64) {
        Some(n) => {
            if n >= 1 && n <= options.len() as u64 {
                let i = (n - 1) as usize;
                assert(opts[i as int] == options@[i as int]@);
                Some(string_from_str(options[i]))
            } else {
                None
            }
        },
        None => {
            let mut i: usize = 0;
            while i < options.len()
                invariant
                    i <= options.len(),
                    opts == str_views(options@),
                    t@ == text::trim(input@),
                    t.len() > 0,
                    text::parse_unsigned(t@, usize::MAX as int) is None,
                    forall|j: int| 0 <= j < i ==> !text::eq_ignore_ascii_case(opts[j], t@),
                decreases options.len() - i,
            {
                let o = chars_of(options[i]);
                assert(opts[i as int] == o@);
                if eq_ignore_ascii_case_vec(&o, &t) {
                    proof {
                        let w = choose|k: int|
                            0 <= k < opts.len() && text::eq_ignore_ascii_case(opts[k], t@)
                                && forall|j: int|
                                0 <= j < k ==> !text::eq_ignore_ascii_case(opts[j], t@);
                        assert(exists|k: int|
                            0 <= k < opts.len() && text::eq_ignore_ascii_case(opts[k], t@));
                        assert(forall|j: int|
                            0 <= j < i ==> !text::eq_ignore_ascii_case(opts[j], t@));
                        if w < i {
                        } else if w > i {
                        }
                        assert(w == i);
                    }
                    return Some(string_of(&o));
                }
                i = i + 1;
            }
            None
        },
    }
}

/// `s.parse::<T>()`. What it accepts is `T`'s own `FromStr`, which this crate
/// does not state; the result is handed on as it came back.
#[verifier::external_body]
fn parse_number<T: std::str::FromStr>(s: &str) -> Option<T> {
    s.parse().ok()
}

/// An answer read as a `T`: what `T`'s own `FromStr` makes of `text`, `None`
/// where it refuses it. Which texts a `T` accepts is up to `T`, so nothing
/// more is said here; `answer_number` states what it hands to this.
pub fn parse_answer<T: std::str::FromStr>(text: &str) -> Option<T> {
    parse_number(text)
}

/// Read a number, where empty keeps the current one. A non-empty answer is
/// read by `T`'s `FromStr` after trimming, so a field that cannot hold the
/// number refuses it rather than wrapping it round.
pub fn answer_number<T: std::str::FromStr>(input: &str, current: T) -> (r: Option<T>)
    ensures
        text::is_blank(input@) ==> r == Some(current),
        !text::is_blank(input@) ==> exists|s: &str|
            s@ == text::trim(input@) && #[trigger] call_ensures(parse_answer::<T>, (s,), r),
{
    let t = trim_vec(&chars_of(input));
    proof {
        text::lemma_trim_empty_iff_blank(input@);
    }
    if t.len() == 0 {
        return Some(current);
    }
    let s = string_of(&t);
    let read = parse_answer::<T>;
    read(s.as_str())
}

/// A password answer: empty keeps the current one, a single `-` clears it,
/// anything else (trimmed) replaces it.
pub open spec fn secret_answer(raw: Seq<char>, current: Seq<char>) -> Seq<char> {
    let t = text::trim(raw);
    if t.len() == 0 {
        current
    } else if t == "-"@ {
        seq![]
    } else {
        t
    }
}

/// Read a password answer.
pub fn answer_secret(raw: &str, current: &str) -> (r: String)
    ensures
        r@ == secret_answer(raw@, current@),
{
    let t = trim_vec(&chars_of(raw));
    if t.len() == 0 {
        string_from_str(current)
    } else if vec_eq_str(&t, "-") {
        String::new()
    } else {
        string_of(&t)
    }
}

/// What the password prompt shows in place of the password itself.
pub fn secret_shown(current: &str) -> (r: &'static str)
    ensures
        current@.len() == 0 ==> r@ == "none set"@,
        current@.len() > 0 ==> r@ == "unchanged"@,
{
    if current.unicode_len() == 0 {
        "none set"
    } else {
        "unchanged"
    }
}

/// The editor's word for an admin mode.
pub fn admin_mode_word(mode: AdminMode) -> (r: &'static str)
    ensures
        mode == AdminMode::Everyone ==> r@ == "everyone"@,
        mode == AdminMode::TtRights ==> r@ == "teamtalk-admins"@,
        mode == AdminMode::List ==> r@ == "list"@,
        mode == AdminMode::Both ==> r@ == "both"@,
{
    match mode {
        AdminMode::Everyone => "everyone",
        AdminMode::TtRights => "teamtalk-admins",
        AdminMode::List => "list",
        AdminMode::Both => "both",
    }
}

/// The admin mode an editor word names; anything else is `Both`.
pub fn admin_mode_from_word(word: &str) -> (r: AdminMode)
    ensures
        r == if word@ == "everyone"@ {
            AdminMode::Everyone
        } else if word@ == "teamtalk-admins"@ {
            AdminMode::TtRights
        } else if word@ == "list"@ {
            AdminMode::List
        } else {
            AdminMode::Both
        },
{
    let w = chars_of(word);
    if vec_eq_str(&w, "everyone") {
        AdminMode::Everyone
    } else if vec_eq_str(&w, "teamtalk-admins") {
        AdminMode::TtRights
    } else if vec_eq_str(&w, "list") {
        AdminMode::List
    } else {
        AdminMode::Both
    }
}

/// The editor's word for which services a bot offers.
pub fn services_word(e: EnabledServices) -> (r: &'static str)
    ensures
        e.spotify && !e.youtube ==> r@ == "spotify"@,
        !e.spotify && e.youtube ==> r@ == "youtube"@,
        e.spotify == e.youtube ==> r@ == "both"@,
{
    match (e.spotify, e.youtube) {
        (true, false) => "spotify",
        (false, true) => "youtube",
        _ => "both",
    }
}

/// The services an editor word names; anything else is both.
pub fn services_from_word(word: &str) -> (r: EnabledServices)
    ensures
        r == if word@ == "spotify"@ {
            EnabledServices { spotify: true, youtube: false }
        } else if word@ == "youtube"@ {
            EnabledServices { spotify: false, youtube: true }
        } else {
            EnabledServices { spotify: true, youtube: true }
        },
{
    let w = chars_of(word);
    if vec_eq_str(&w, "spotify") {
        EnabledServices { spotify: true, youtube: false }
    } else if vec_eq_str(&w, "youtube") {
        EnabledServices { spotify: false, youtube: true }
    } else {
        EnabledServices { spotify: true, youtube: true }
    }
}

/// What an answer at the editor's menu asks for.
#[derive(Debug, Clone, Copy, PartialEq, Eq, Structural)]
pub enum MenuAction {
    Server,
    Identity,
    Admins,
    Services,
    Audio,
    Radio,
    SaveAndQuit,
    QuitWithoutSaving,
    /// An empty answer: the menu is not shown again, only a reminder.
    Nothing,
    /// Anything else: not one of the choices.
    Unknown,
}

/// The action a menu answer names: the numbers 1 to 8, trimmed.
pub open spec fn menu_action_for(answer: Seq<char>) -> MenuAction {
    let t = text::trim(answer);
    if t == "1"@ {
        MenuAction::Server
    } else if t == "2"@ {
        MenuAction::Identity
    } else if t == "3"@ {
        MenuAction::Admins
    } else if t == "4"@ {
        MenuAction::Services
    } else if t == "5"@ {
        MenuAction::Audio
    } else if t == "6"@ {
        MenuAction::Radio
    } else if t == "7"@ {
        MenuAction::SaveAndQuit
    } else if t == "8"@ {
        MenuAction::QuitWithoutSaving
    } else if t.len() == 0 {
        MenuAction::Nothing
    } else {
        MenuAction::Unknown
    }
}

/// Read an answer at the editor's menu.
pub fn menu_action(answer: &str) -> (r: MenuAction)
    ensures
        r == menu_action_for(answer@),
{
    let t = trim_vec(&chars_of(answer));
    if vec_eq_str(&t, "1") {
        MenuAction::Server
    } else if vec_eq_str(&t, "2") {
        MenuAction::Identity
    } else if vec_eq_str(&t, "3") {
        MenuAction::Admins
    } else if vec_eq_str(&t, "4") {
        MenuAction::Services
    } else if vec_eq_str(&t, "5") {
        MenuAction::Audio
    } else if vec_eq_str(&t, "6") {
        MenuAction::Radio
    } else if vec_eq_str(&t, "7") {
        MenuAction::SaveAndQuit
    } else if vec_eq_str(&t, "8") {
        MenuAction::QuitWithoutSaving
    } else if t.len() == 0 {
        MenuAction::Nothing
    } else {
        MenuAction::Unknown
    }
}

/// What `edit <name>` says when no config has that name.
pub open spec fn unknown_config_text(names: Seq<Seq<char>>, wanted: Seq<char>) -> Seq<char> {
    "No config named \""@ + wanted + "\". Available: "@ + crate::admins::joined(names, ", "@) + "."@
}

/// The config `edit <name>` opens: the first one of exactly that name, or
/// why there is none, naming the ones there are.
pub fn pick_named(names: &[String], wanted: &str) -> (r: Result<usize, String>)
    ensures
        match r {
            Ok(i) => i < names.len() && names@[i as int]@ == wanted@ && forall|j: int|
                0 <= j < i ==> names@[j]@ != wanted@,
            Err(e) => (forall|j: int| 0 <= j < names.len() ==> names@[j]@ != wanted@) && e@
                == unknown_config_text(crate::config::string_views(names@), wanted@),
        },
{
    let w = chars_of(wanted);
    let mut i: usize = 0;
    while i < names.len()
        invariant
            i <= names.len(),
            w@ == wanted@,
            forall|j: int| 0 <= j < i ==> names@[j]@ != wanted@,
        decreases names.len() - i,
    {
        if vec_eq(&chars_of(names[i].as_str()), &w) {
            return Ok(i);
        }
        i = i + 1;
    }
    let mut v = chars_of("No config named \"");
    append_seq(&mut v, &w);
    append_str(&mut v, "\". Available: ");
    append_seq(&mut v, &chars_of(crate::admins::join_admins(names).as_str()));
    append_str(&mut v, ".");
    proof {
        reveal_strlit(", ");
        assert(crate::admins::list_separator() =~= ", "@);
    }
    Err(string_of(&v))
}

/// What `edit` opens, from the configs there are and the name typed, if any.
#[derive(Debug, Clone, PartialEq)]
pub enum EditTarget {
    /// There are no configs at all, so there is nothing to edit.
    NoConfigs,
    /// No name was typed: the user is asked which config.
    Ask,
    /// The config at this index.
    Open(usize),
    /// No config has the name typed; the text says so and lists them.
    Unknown(String),
}

/// What `edit [name]` opens: nothing when there are no configs (whatever
/// name was typed), the menu when no name was typed, else the config of
/// that name or why there is none (see `pick_named`).
pub fn edit_target(names: &[String], wanted: Option<&str>) -> (r: EditTarget)
    ensures
        names.len() == 0 ==> r is NoConfigs,
        names.len() > 0 && wanted is None ==> r is Ask,
        names.len() > 0 && wanted is Some ==> match r {
            EditTarget::Open(i) => i < names.len() && names@[i as int]@ == wanted->0@ && forall|j: int|
                0 <= j < i ==> names@[j]@ != wanted->0@,
            EditTarget::Unknown(e) => (forall|j: int| 0 <= j < names.len() ==> names@[j]@ != wanted->0@)
                && e@ == unknown_config_text(crate::config::string_views(names@), wanted->0@),
            _ => false,
        },
{
    if names.len() == 0 {
        return EditTarget::NoConfigs;
    }
    match wanted {
        None => EditTarget::Ask,
        Some(w) => match pick_named(names, w) {
            Ok(i) => EditTarget::Open(i),
            Err(e) => EditTarget::Unknown(e),
        },
    }
}

} // verus!
