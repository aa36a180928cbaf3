//! Bot configs: the words they accept, the names they may be saved under, the
//! corrections applied to a hand-edited file, and the rules that decide which
//! JSON files in the config folder are bots at all.

use vstd::prelude::*;

use crate::services;
use crate::services::Service;
use crate::text;
use crate::text::{append_str, is_blank_vec, vec_lt, chars_of, decimal_vec, eq_ignore_ascii_case_vec, is_control_exec, matches_at, parse_unsigned_vec, slice_vec, string_from_str, string_of, trim_char_vec, trim_str, trim_vec, vec_eq, vec_eq_str};

verus! {

// ---------------------------------------------------------------------------
// Gender words
// ---------------------------------------------------------------------------

/// The voice a bot announces itself with on the TeamTalk server.
#[derive(Debug, Clone, Copy, PartialEq, Eq, Structural)]
pub enum UserGender {
    Male,
    Female,
    Neutral,
}

/// The gender a word names once lowercased (`str::to_lowercase`):
/// male/m/man, female/f/woman, neutral/n/nb.
pub open spec fn gender_named(s: Seq<char>) -> Option<UserGender> {
    let w = text::lowercase(s);
    if w == "male"@ || w == "m"@ || w == "man"@ {
        Some(UserGender::Male)
    } else if w == "female"@ || w == "f"@ || w == "woman"@ {
        Some(UserGender::Female)
    } else if w == "neutral"@ || w == "n"@ || w == "nb"@ {
        Some(UserGender::Neutral)
    } else {
        None
    }
}

/// The one place the accepted gender words live; `is_valid_gender` and
/// `parse_gender` both answer from it.
fn gender_from_str(s: &str) -> (r: Option<UserGender>)
    ensures
        r == gender_named(s@),
{
    let lowered = text::to_lowercase(s);
    let w = chars_of(lowered.as_str());
    if vec_eq_str(&w, "male") || vec_eq_str(&w, "m") || vec_eq_str(&w, "man") {
        Some(UserGender::Male)
    } else if vec_eq_str(&w, "female") || vec_eq_str(&w, "f") || vec_eq_str(&w, "woman") {
        Some(UserGender::Female)
    } else if vec_eq_str(&w, "neutral") || vec_eq_str(&w, "n") || vec_eq_str(&w, "nb") {
        Some(UserGender::Neutral)
    } else {
        None
    }
}

/// Check whether a string is a recognised gender alias.
pub fn is_valid_gender(s: &str) -> (r: bool)
    ensures
        r == gender_named(s@).is_some(),
{
    gender_from_str(s).is_some()
}

/// Parse a gender string; anything unrecognised is `Neutral`.
pub fn parse_gender(s: &str) -> (r: UserGender)
    ensures
        r == match gender_named(s@) {
            Some(g) => g,
            None => UserGender::Neutral,
        },
{
    match gender_from_str(s) {
        Some(g) => g,
        None => UserGender::Neutral,
    }
}

// ---------------------------------------------------------------------------
// Picking a bot from a menu
// ---------------------------------------------------------------------------

/// The index a menu answer picks: the number beside a bot (counting from 1),
/// or its name typed out. Anything else, an out-of-range number included,
/// picks nothing.
pub open spec fn config_choice(input: Seq<char>, names: Seq<Seq<char>>) -> Option<int> {
    let t = text::trim(input);
    if t.len() == 0 {
        None
    } else {
        match text::parse_unsigned(t, usize::MAX as int) {
            Some(n) => if 1 <= n <= names.len() {
                Some(n - 1)
            } else {
                None
            },
            None => if exists|i: int| 0 <= i < names.len() && names[i] == t {
                Some(choose|i: int| 0 <= i < names.len() && names[i] == t
                    && forall|j: int| 0 <= j < i ==> names[j] != t)
            } else {
                None
            },
        }
    }
}

/// A typed name picks the first bot of that name: where the trimmed answer
/// is not a number and some name equals it, the pick is the least index
/// holding it.
pub proof fn lemma_name_picks_first_match(input: Seq<char>, names: Seq<Seq<char>>)
    requires
        text::trim(input).len() > 0,
        text::parse_unsigned(text::trim(input), usize::MAX as int) is None,
        exists|i: int| 0 <= i < names.len() && names[i] == text::trim(input),
    ensures
        config_choice(input, names) matches Some(i) && 0 <= i < names.len() && names[i]
            == text::trim(input) && forall|j: int| 0 <= j < i ==> names[j] != text::trim(input),
{
    let t = text::trim(input);
    let p = |i: int| names[i] == t;
    let k = choose|i: int| 0 <= i < names.len() && names[i] == t;
    assert(p(k));
    text::lemma_least_index(p, names.len() as int);
    let w = choose|i: int|
        0 <= i < names.len() && #[trigger] p(i) && forall|j: int| 0 <= j < i ==> !#[trigger] p(j);
    assert forall|j: int| 0 <= j < w implies names[j] != t by {
        assert(!p(j));
    }
    assert(p(w));
}

/// The names of a list of strings, as character sequences.
pub open spec fn string_views(v: Seq<String>) -> Seq<Seq<char>> {
    v.map_values(|s: String| s@)
}

/// Read a menu answer: the number beside a bot, or its name typed out.
pub fn parse_config_choice(input: &str, names: &[String]) -> (r: Option<usize>)
    ensures
        match r {
            Some(i) => config_choice(input@, string_views(names@)) == Some(i as int),
            None => config_choice(input@, string_views(names@)) is None,
        },
{
    let t = trim_vec(&chars_of(input));
    if t.len() == 0 {
        return None;
    }
    let ghost views = string_views(names@);
    match parse_unsigned_vec(&t, usize::MAX as u64) {
        Some(n) => {
            if n >= 1 && n <= names.len() as u64 {
                Some((n - 1) as usize)
            } else {
                None
            }
        },
        None => {
            let mut i: usize = 0;
            while i < names.len()
                invariant
                    i <= names.len(),
                    views == string_views(names@),
                    t@ == text::trim(input@),
                    t.len() > 0,
                    text::parse_unsigned(t@, usize::MAX as int) is None,
                    forall|j: int| 0 <= j < i ==> views[j] != t@,
                decreases names.len() - i,
            {
                let n = chars_of(names[i].as_str());
                if vec_eq(&n, &t) {
                    proof {
                        assert(views[i as int] == t@);
                        let w = choose|k: int| 0 <= k < views.len() && views[k] == t@
                            && forall|j: int| 0 <= j < k ==> views[j] != t@;
                        assert(0 <= w < views.len() && views[w] == t@ && forall|j: int|
                            0 <= j < w ==> views[j] != t@);
                        if w < i {
                        } else if w > i {
                            assert(views[i as int] != t@);
                        }
                        assert(w == i);
                        assert(t@ == text::trim(input@));
                        assert(exists|k: int| 0 <= k < views.len() && views[k] == t@);
                    }
                    return Some(i);
                }
                i = i + 1;
            }
            None
        },
    }
}

// ---------------------------------------------------------------------------
// Names for new configs
// ---------------------------------------------------------------------------

pub open spec fn json_suffix() -> Seq<char> {
    seq!['.', 'j', 's', 'o', 'n']
}

/// `s.trim_end_matches(".json")`: every trailing `.json`, repeatedly.
pub open spec fn strip_json_suffixes(s: Seq<char>) -> Seq<char>
    decreases s.len(),
{
    if text::ends_with(s, json_suffix()) {
        strip_json_suffixes(s.subrange(0, s.len() - 5))
    } else {
        s
    }
}

/// Characters a file name may not carry: anything that could climb out of
/// the configs folder, the characters Windows refuses, and control codes.
pub open spec fn name_char_dropped(c: char) -> bool {
    ||| c == '/'
    ||| c == '\\'
    ||| c == ':'
    ||| c == '*'
    ||| c == '?'
    ||| c == '"'
    ||| c == '<'
    ||| c == '>'
    ||| c == '|'
    ||| text::is_control(c)
}

/// `s` with every dropped character removed, order kept.
pub open spec fn keep_name_chars(s: Seq<char>) -> Seq<char>
    decreases s.len(),
{
    if s.len() == 0 {
        s
    } else {
        let r = keep_name_chars(s.drop_last());
        if name_char_dropped(s.last()) {
            r
        } else {
            r.push(s.last())
        }
    }
}

/// What a typed config name becomes, or `None` when nothing usable is left:
/// trimmed, `.json` suffixes removed, unsafe characters dropped, trimmed of
/// whitespace and then of dots; at most sixty characters, and never `all` or
/// `tray` in any case.
pub open spec fn sanitised_name(name: Seq<char>) -> Option<Seq<char>> {
    let cleaned = text::trim_char(text::trim(keep_name_chars(strip_json_suffixes(text::trim(name)))), '.');
    if cleaned.len() == 0 || cleaned.len() > 60 || text::eq_ignore_ascii_case(cleaned, "all"@)
        || text::eq_ignore_ascii_case(cleaned, "tray"@) {
        None
    } else {
        Some(cleaned)
    }
}

proof fn lemma_keep_name_chars_clean(s: Seq<char>)
    ensures
        forall|i: int|
            0 <= i < keep_name_chars(s).len() ==> !name_char_dropped(
                #[trigger] keep_name_chars(s)[i],
            ),
    decreases s.len(),
{
    if s.len() > 0 {
        lemma_keep_name_chars_clean(s.drop_last());
        let r = keep_name_chars(s.drop_last());
        if !name_char_dropped(s.last()) {
            assert forall|i: int| 0 <= i < r.push(s.last()).len() implies !name_char_dropped(
                #[trigger] r.push(s.last())[i],
            ) by {
                if i < r.len() {
                    assert(r.push(s.last())[i] == r[i]);
                }
            }
        }
    }
}

proof fn lemma_trim_char_start_sub(s: Seq<char>, c: char)
    ensures
        exists|i: int| 0 <= i <= s.len() && text::trim_char_start(s, c) == s.subrange(i, s.len() as int),
    decreases s.len(),
{
    if s.len() > 0 && s[0] == c {
        lemma_trim_char_start_sub(s.drop_first(), c);
        let i = choose|i: int|
            0 <= i <= s.drop_first().len() && text::trim_char_start(s.drop_first(), c)
                == s.drop_first().subrange(i, s.drop_first().len() as int);
        assert(s.drop_first().subrange(i, s.drop_first().len() as int) =~= s.subrange(
            i + 1,
            s.len() as int,
        ));
    } else {
        assert(s.subrange(0, s.len() as int) =~= s);
    }
}

proof fn lemma_trim_char_end_sub(s: Seq<char>, c: char)
    ensures
        exists|j: int| 0 <= j <= s.len() && text::trim_char_end(s, c) == s.subrange(0, j),
    decreases s.len(),
{
    if s.len() > 0 && s.last() == c {
        lemma_trim_char_end_sub(s.drop_last(), c);
        let j = choose|j: int|
            0 <= j <= s.drop_last().len() && text::trim_char_end(s.drop_last(), c)
                == s.drop_last().subrange(0, j);
        assert(s.drop_last().subrange(0, j) =~= s.subrange(0, j));
    } else {
        assert(s.subrange(0, s.len() as int) =~= s);
    }
}

/// Every character of a trimmed sequence was a character of the original.
proof fn lemma_trims_keep_clean(s: Seq<char>)
    requires
        forall|i: int| 0 <= i < s.len() ==> !name_char_dropped(#[trigger] s[i]),
    ensures
        forall|i: int|
            0 <= i < text::trim_char(text::trim(s), '.').len() ==> !name_char_dropped(
                #[trigger] text::trim_char(text::trim(s), '.')[i],
            ),
{
    text::lemma_trim_start_sub(s);
    let a = text::trim_start(s);
    let i = choose|i: int| 0 <= i <= s.len() && a == s.subrange(i, s.len() as int);
    assert forall|k: int| 0 <= k < a.len() implies !name_char_dropped(#[trigger] a[k]) by {
        assert(a[k] == s[i + k]);
    }
    text::lemma_trim_end_sub(a);
    let b = text::trim_end(a);
    let j = choose|j: int| 0 <= j <= a.len() && b == a.subrange(0, j);
    assert forall|k: int| 0 <= k < b.len() implies !name_char_dropped(#[trigger] b[k]) by {
        assert(b[k] == a[k]);
    }
    lemma_trim_char_start_sub(b, '.');
    let c = text::trim_char_start(b, '.');
    let i2 = choose|i2: int| 0 <= i2 <= b.len() && c == b.subrange(i2, b.len() as int);
    assert forall|k: int| 0 <= k < c.len() implies !name_char_dropped(#[trigger] c[k]) by {
        assert(c[k] == b[i2 + k]);
    }
    lemma_trim_char_end_sub(c, '.');
    let d = text::trim_char_end(c, '.');
    let j2 = choose|j2: int| 0 <= j2 <= c.len() && d == c.subrange(0, j2);
    assert forall|k: int| 0 <= k < d.len() implies !name_char_dropped(#[trigger] d[k]) by {
        assert(d[k] == c[k]);
    }
}

/// A sanitised name is a plain file name: it never holds a path separator,
/// a character Windows refuses, or a control character, and it is never
/// empty or longer than sixty characters.
pub proof fn lemma_sanitised_name_is_plain(name: Seq<char>)
    ensures
        sanitised_name(name) matches Some(n) ==> {
            &&& 0 < n.len() <= 60
            &&& forall|i: int| 0 <= i < n.len() ==> !name_char_dropped(#[trigger] n[i])
        },
{
    let k = keep_name_chars(strip_json_suffixes(text::trim(name)));
    lemma_keep_name_chars_clean(strip_json_suffixes(text::trim(name)));
    lemma_trims_keep_clean(k);
}

proof fn lemma_trim_char_start_first(s: Seq<char>, c: char)
    ensures
        text::trim_char_start(s, c).len() > 0 ==> text::trim_char_start(s, c)[0] != c,
    decreases s.len(),
{
    if s.len() > 0 && s[0] == c {
        lemma_trim_char_start_first(s.drop_first(), c);
    }
}

proof fn lemma_trim_char_end_last(s: Seq<char>, c: char)
    ensures
        text::trim_char_end(s, c).len() > 0 ==> text::trim_char_end(s, c).last() != c,
    decreases s.len(),
{
    if s.len() > 0 && s.last() == c {
        lemma_trim_char_end_last(s.drop_last(), c);
    }
}

/// Trimming a character off both ends leaves it at neither end.
proof fn lemma_trim_char_ends(s: Seq<char>, c: char)
    ensures
        text::trim_char(s, c).len() > 0 ==> text::trim_char(s, c)[0] != c && text::trim_char(
            s,
            c,
        ).last() != c,
{
    let a = text::trim_char_start(s, c);
    lemma_trim_char_start_first(s, c);
    lemma_trim_char_end_last(a, c);
    lemma_trim_char_end_sub(a, c);
    let j = choose|j: int| 0 <= j <= a.len() && text::trim_char_end(a, c) == a.subrange(0, j);
    if text::trim_char(s, c).len() > 0 {
        assert(text::trim_char(s, c)[0] == a[0]);
    }
}

/// Keeping the allowed characters of a name that has only allowed ones
/// keeps it whole.
proof fn lemma_keep_name_chars_clean_whole(s: Seq<char>)
    requires
        forall|i: int| 0 <= i < s.len() ==> !name_char_dropped(#[trigger] s[i]),
    ensures
        keep_name_chars(s) == s,
    decreases s.len(),
{
    if s.len() > 0 {
        assert(!name_char_dropped(s[s.len() - 1]));
        assert forall|i: int| 0 <= i < s.drop_last().len() implies !name_char_dropped(
            #[trigger] s.drop_last()[i],
        ) by {
            assert(s.drop_last()[i] == s[i]);
        }
        lemma_keep_name_chars_clean_whole(s.drop_last());
        assert(s.drop_last().push(s.last()) =~= s);
    }
}

/// A sanitised name neither starts nor ends with a dot, so it can never be
/// read as a hidden file or lose a dot to the file system.
pub proof fn lemma_sanitised_name_has_no_edge_dot(name: Seq<char>)
    ensures
        sanitised_name(name) matches Some(n) ==> n[0] != '.' && n.last() != '.',
{
    let k = text::trim(keep_name_chars(strip_json_suffixes(text::trim(name))));
    lemma_trim_char_ends(k, '.');
}

/// Sanitising a sanitised name again gives it back unchanged, whenever it
/// does not start or end with whitespace or end in `.json` (which the dots
/// trimmed off last can leave, as `". a"` gives `" a"`).
pub proof fn lemma_sanitised_name_settles(name: Seq<char>)
    requires
        sanitised_name(name) matches Some(n) && !text::is_ws(n[0]) && !text::is_ws(n.last())
            && !text::ends_with(n, json_suffix()),
    ensures
        sanitised_name(name) matches Some(n) && sanitised_name(n) == Some(n),
{
    let n = sanitised_name(name)->0;
    lemma_sanitised_name_is_plain(name);
    lemma_sanitised_name_has_no_edge_dot(name);
    assert(text::trim_start(n) == n);
    assert(text::trim_end(n) == n);
    assert(text::trim(n) == n);
    assert(strip_json_suffixes(n) == n);
    lemma_keep_name_chars_clean_whole(n);
    assert(text::trim_char_start(n, '.') == n);
    assert(text::trim_char_end(n, '.') == n);
}

/// `a` is `b` with some characters left out: `idx` gives, for each
/// character of `a`, where in `b` it was, in increasing order.
pub open spec fn picked_from(a: Seq<char>, b: Seq<char>, idx: Seq<int>) -> bool {
    &&& idx.len() == a.len()
    &&& forall|i: int| 0 <= i < a.len() ==> 0 <= #[trigger] idx[i] < b.len() && b[idx[i]] == a[i]
    &&& forall|i: int, j: int| 0 <= i < j < a.len() ==> #[trigger] idx[i] < #[trigger] idx[j]
}

/// `a` is a subsequence of `b`.
pub open spec fn is_subsequence(a: Seq<char>, b: Seq<char>) -> bool {
    exists|idx: Seq<int>| picked_from(a, b, idx)
}

proof fn lemma_subrange_is_subsequence(b: Seq<char>, i: int, j: int)
    requires
        0 <= i <= j <= b.len(),
    ensures
        is_subsequence(b.subrange(i, j), b),
{
    let idx = Seq::new((j - i) as nat, |k: int| k + i);
    assert(picked_from(b.subrange(i, j), b, idx));
}

proof fn lemma_subsequence_trans(a: Seq<char>, b: Seq<char>, c: Seq<char>)
    requires
        is_subsequence(a, b),
        is_subsequence(b, c),
    ensures
        is_subsequence(a, c),
{
    let ia = choose|idx: Seq<int>| picked_from(a, b, idx);
    let ib = choose|idx: Seq<int>| picked_from(b, c, idx);
    let idx = Seq::new(a.len(), |k: int| ib[ia[k]]);
    assert forall|i: int| 0 <= i < a.len() implies 0 <= #[trigger] idx[i] < c.len() && c[idx[i]]
        == a[i] by {
        assert(0 <= ia[i] < b.len());
    }
    assert forall|i: int, j: int| 0 <= i < j < a.len() implies #[trigger] idx[i] < #[trigger] idx[j] by {
        assert(ia[i] < ia[j]);
        assert(0 <= ia[i] < b.len() && 0 <= ia[j] < b.len());
    }
    assert(picked_from(a, c, idx));
}

proof fn lemma_keep_name_chars_subsequence(s: Seq<char>)
    ensures
        is_subsequence(keep_name_chars(s), s),
    decreases s.len(),
{
    if s.len() == 0 {
        assert(picked_from(keep_name_chars(s), s, Seq::<int>::empty()));
    } else {
        let f = s.drop_last();
        lemma_keep_name_chars_subsequence(f);
        let k = keep_name_chars(f);
        let ik = choose|idx: Seq<int>| picked_from(k, f, idx);
        assert(picked_from(k, s, ik)) by {
            assert forall|i: int| 0 <= i < k.len() implies 0 <= #[trigger] ik[i] < s.len() && s[ik[i]]
                == k[i] by {
                assert(f[ik[i]] == s[ik[i]]);
            }
        }
        if !name_char_dropped(s.last()) {
            let idx = ik.push(s.len() - 1);
            assert forall|i: int| 0 <= i < k.push(s.last()).len() implies 0 <= #[trigger] idx[i]
                < s.len() && s[idx[i]] == k.push(s.last())[i] by {
                if i < k.len() {
                    assert(f[ik[i]] == s[ik[i]]);
                }
            }
            assert forall|i: int, j: int| 0 <= i < j < k.push(s.last()).len() implies #[trigger] idx[i]
                < #[trigger] idx[j] by {
                if j == k.len() {
                    assert(ik[i] < f.len());
                }
            }
            assert(picked_from(k.push(s.last()), s, idx));
        }
    }
}

proof fn lemma_strip_json_suffixes_prefix(s: Seq<char>)
    ensures
        exists|j: int| 0 <= j <= s.len() && strip_json_suffixes(s) == s.subrange(0, j),
    decreases s.len(),
{
    if text::ends_with(s, json_suffix()) {
        let t = s.subrange(0, s.len() - 5);
        lemma_strip_json_suffixes_prefix(t);
        let j = choose|j: int| 0 <= j <= t.len() && strip_json_suffixes(t) == t.subrange(0, j);
        assert(t.subrange(0, j) =~= s.subrange(0, j));
    } else {
        assert(s.subrange(0, s.len() as int) =~= s);
    }
}

/// A sanitised name is made of the typed name's own characters, in order:
/// sanitising only leaves characters out.
pub proof fn lemma_sanitised_name_is_subsequence(name: Seq<char>)
    ensures
        sanitised_name(name) matches Some(n) ==> is_subsequence(n, name),
{
    let t0 = text::trim(name);
    text::lemma_trim_sub(name);
    let (a0, b0) = choose|i: int, j: int| 0 <= i <= j <= name.len() && t0 == name.subrange(i, j);
    lemma_subrange_is_subsequence(name, a0, b0);
    let t1 = strip_json_suffixes(t0);
    lemma_strip_json_suffixes_prefix(t0);
    let j1 = choose|j: int| 0 <= j <= t0.len() && t1 == t0.subrange(0, j);
    lemma_subrange_is_subsequence(t0, 0, j1);
    lemma_subsequence_trans(t1, t0, name);
    let t2 = keep_name_chars(t1);
    lemma_keep_name_chars_subsequence(t1);
    lemma_subsequence_trans(t2, t1, name);
    let t3 = text::trim(t2);
    text::lemma_trim_sub(t2);
    let (a3, b3) = choose|i: int, j: int| 0 <= i <= j <= t2.len() && t3 == t2.subrange(i, j);
    lemma_subrange_is_subsequence(t2, a3, b3);
    lemma_subsequence_trans(t3, t2, name);
    let t4 = text::trim_char_start(t3, '.');
    lemma_trim_char_start_sub(t3, '.');
    let a4 = choose|i: int| 0 <= i <= t3.len() && t4 == t3.subrange(i, t3.len() as int);
    lemma_subrange_is_subsequence(t3, a4, t3.len() as int);
    lemma_subsequence_trans(t4, t3, name);
    let t5 = text::trim_char_end(t4, '.');
    lemma_trim_char_end_sub(t4, '.');
    let b5 = choose|j: int| 0 <= j <= t4.len() && t5 == t4.subrange(0, j);
    lemma_subrange_is_subsequence(t4, 0, b5);
    lemma_subsequence_trans(t5, t4, name);
}

/// Remove every trailing `.json`.
fn strip_json_suffixes_vec(v: &Vec<char>) -> (r: Vec<char>)
    ensures
        r@ == strip_json_suffixes(v@),
{
    let suffix: Vec<char> = vec!['.', 'j', 's', 'o', 'n'];
    assert(suffix@ == json_suffix());
    let mut end: usize = v.len();
    assert(v@.subrange(0, end as int) =~= v@);
    loop
        invariant
            end <= v.len(),
            suffix@ == json_suffix(),
            strip_json_suffixes(v@) == strip_json_suffixes(v@.subrange(0, end as int)),
        decreases end,
    {
        let cur = slice_vec(v, 0, end);
        let tail_matches = if end >= 5 {
            matches_at(&cur, end - 5, &suffix)
        } else {
            false
        };
        proof {
            if end >= 5 {
                let t = cur@.subrange(end - 5, end as int);
                assert(t.subrange(0, 5) =~= t);
            }
        }
        if !tail_matches {
            return cur;
        }
        proof {
            assert(cur@.subrange(0, end - 5) =~= v@.subrange(0, end - 5));
        }
        end = end - 5;
    }
}

fn name_char_dropped_exec(c: char) -> (r: bool)
    ensures
        r == name_char_dropped(c),
{
    c == '/' || c == '\\' || c == ':' || c == '*' || c == '?' || c == '"' || c == '<' || c == '>'
        || c == '|' || is_control_exec(c)
}

fn keep_name_chars_vec(v: &Vec<char>) -> (r: Vec<char>)
    ensures
        r@ == keep_name_chars(v@),
{
    let mut r: Vec<char> = Vec::new();
    let mut i: usize = 0;
    assert(v@.subrange(0, 0) =~= Seq::<char>::empty());
    while i < v.len()
        invariant
            i <= v.len(),
            r@ == keep_name_chars(v@.subrange(0, i as int)),
        decreases v.len() - i,
    {
        let c = v[i];
        proof {
            let p = v@.subrange(0, i + 1);
            assert(p.drop_last() =~= v@.subrange(0, i as int));
            assert(p.last() == c);
        }
        if !name_char_dropped_exec(c) {
            r.push(c);
        }
        i = i + 1;
    }
    assert(v@.subrange(0, v.len() as int) =~= v@);
    r
}

/// Turn a typed name into one that can only name a file inside the configs
/// folder, or refuse it.
pub fn sanitise_config_name(name: &str) -> (r: Option<String>)
    ensures
        match r {
            Some(s) => sanitised_name(name@) == Some(s@),
            None => sanitised_name(name@) is None,
        },
{
    let trimmed = trim_vec(&chars_of(name));
    let stripped = strip_json_suffixes_vec(&trimmed);
    let kept = keep_name_chars_vec(&stripped);
    let cleaned = trim_char_vec(&trim_vec(&kept), '.');
    if cleaned.len() == 0 || cleaned.len() > 60 {
        return None;
    }
    if eq_ignore_ascii_case_vec(&cleaned, &chars_of("all")) || eq_ignore_ascii_case_vec(
        &cleaned,
        &chars_of("tray"),
    ) {
        return None;
    }
    Some(string_of(&cleaned))
}

// ---------------------------------------------------------------------------
// Services a bot may use
// ---------------------------------------------------------------------------

/// Which services a bot may use. A missing setting means both.
#[derive(Debug, Clone, Copy, PartialEq, Eq, Structural)]
pub struct EnabledServices {
    pub spotify: bool,
    pub youtube: bool,
}

impl Default for EnabledServices {
    fn default() -> (r: Self)
        ensures
            r.spotify && r.youtube,
    {
        EnabledServices { spotify: true, youtube: true }
    }
}

/// The single service left enabled, when there is exactly one.
pub open spec fn only_service(e: EnabledServices) -> Option<Service> {
    if e.spotify && !e.youtube {
        Some(Service::Spotify)
    } else if !e.spotify && e.youtube {
        Some(Service::YouTube)
    } else {
        None
    }
}

/// The names a setting is stored as: `spotify` and `youtube`, each when
/// enabled, in that order.
pub open spec fn service_names(e: EnabledServices) -> Seq<Seq<char>> {
    push_if(push_if(Seq::empty(), e.spotify, "spotify"@), e.youtube, "youtube"@)
}

/// Writing the setting out and reading it back gives the same setting.
pub proof fn lemma_service_names_round_trip(e: EnabledServices)
    ensures
        services_from_names(service_names(e)) == e,
{
    reveal_strlit("spotify");
    reveal_strlit("youtube");
    reveal_strlit("sp");
    reveal_strlit("yt");
    let sp = "spotify"@;
    let yt = "youtube"@;
    assert(text::trim_start(sp) == sp);
    assert(text::trim_end(sp) == sp);
    assert(text::trim_start(yt) == yt);
    assert(text::trim_end(yt) == yt);
    assert(text::ascii_lower(sp) =~= sp);
    assert(text::ascii_lower(yt) =~= yt);
    assert(services::service_named(sp) == Some(Service::Spotify));
    assert(yt != sp) by {
        assert(yt[0] != sp[0]);
    }
    assert(yt != "sp"@);
    assert(services::service_named(yt) == Some(Service::YouTube));
    let n = service_names(e);
    let r = services_from_names(n);
    if e.spotify {
        assert(n[0] == sp);
    }
    if e.youtube {
        assert(n[n.len() - 1] == yt);
    }
    assert forall|i: int| 0 <= i < n.len() implies (#[trigger] n[i] == sp || n[i] == yt) by {}
    assert(r.spotify == e.spotify);
    assert(r.youtube == e.youtube);
}

/// The services named in a list of setting words.
pub open spec fn services_from_names(names: Seq<Seq<char>>) -> EnabledServices {
    EnabledServices {
        spotify: exists|i: int|
            0 <= i < names.len() && services::service_named(#[trigger] names[i]) == Some(Service::Spotify),
        youtube: exists|i: int|
            0 <= i < names.len() && services::service_named(#[trigger] names[i]) == Some(Service::YouTube),
    }
}

impl EnabledServices {
    pub fn allows(self, service: Service) -> (r: bool)
        ensures
            r == match service {
                Service::Spotify => self.spotify,
                Service::YouTube => self.youtube,
            },
    {
        match service {
            Service::Spotify => self.spotify,
            Service::YouTube => self.youtube,
        }
    }

    /// The single enabled service, when there is exactly one.
    pub fn only(self) -> (r: Option<Service>)
        ensures
            r == only_service(self),
    {
        match (self.spotify, self.youtube) {
            (true, false) => Some(Service::Spotify),
            (false, true) => Some(Service::YouTube),
            _ => None,
        }
    }

    /// Human-readable list for logs and the `info` command.
    pub fn display(self) -> (r: &'static str)
        ensures
            only_service(self) == Some(Service::Spotify) ==> r@ == "Spotify"@,
            only_service(self) == Some(Service::YouTube) ==> r@ == "YouTube"@,
            only_service(self) is None ==> r@ == "Spotify, YouTube"@,
    {
        match (self.spotify, self.youtube) {
            (true, false) => "Spotify",
            (false, true) => "YouTube",
            _ => "Spotify, YouTube",
        }
    }

    /// The setting as stored: the names of the enabled services, in order.
    pub fn names(self) -> (r: Vec<&'static str>)
        ensures
            r@.map_values(|n: &str| n@) == service_names(self),
    {
        let mut names: Vec<&'static str> = Vec::new();
        if self.spotify {
            names.push("spotify");
        }
        let ghost first = names@.map_values(|n: &str| n@);
        if self.youtube {
            names.push("youtube");
        }
        proof {
            assert(first =~= push_if(Seq::empty(), self.spotify, "spotify"@));
            assert(names@.map_values(|n: &str| n@) =~= service_names(self));
        }
        names
    }

    /// Read the stored setting back. Names are matched however they are
    /// capitalised; unknown ones are ignored, so a typo reads as that service
    /// being off.
    pub fn from_names(names: &[String]) -> (r: EnabledServices)
        ensures
            r == services_from_names(string_views(names@)),
    {
        let ghost views = string_views(names@);
        let mut services = EnabledServices { spotify: false, youtube: false };
        let mut i: usize = 0;
        while i < names.len()
            invariant
                i <= names.len(),
                views == string_views(names@),
                services.spotify == exists|k: int|
                    0 <= k < i && services::service_named(#[trigger] views[k]) == Some(Service::Spotify),
                services.youtube == exists|k: int|
                    0 <= k < i && services::service_named(#[trigger] views[k]) == Some(Service::YouTube),
            decreases names.len() - i,
        {
            let s = Service::parse(names[i].as_str());
            assert(views[i as int] == names@[i as int]@);
            match s {
                Some(Service::Spotify) => services.spotify = true,
                Some(Service::YouTube) => services.youtube = true,
                None => {},
            }
            i = i + 1;
        }
        services
    }
}

// ---------------------------------------------------------------------------
// Rejoining after a kick
// ---------------------------------------------------------------------------

/// The kick delays offered, in seconds.
pub const KICK_DELAYS: [u32; 4] = [0, 10, 30, 60];

/// How a delay is written in the dropdown.
pub open spec fn delay_label(s: nat) -> Seq<char> {
    if s == 0 {
        "Instantly"@
    } else if s == 60 {
        "1 minute"@
    } else if s % 60 == 0 {
        text::decimal(s / 60) + " minutes"@
    } else if s == 1 {
        "1 second"@
    } else {
        text::decimal(s) + " seconds"@
    }
}

/// How a delay is written in the dropdown.
pub fn kick_delay_label(seconds: u32) -> (r: String)
    ensures
        r@ == delay_label(seconds as nat),
{
    if seconds == 0 {
        string_from_str("Instantly")
    } else if seconds == 60 {
        string_from_str("1 minute")
    } else if seconds % 60 == 0 {
        let mut v = decimal_vec((seconds / 60) as u64);
        append_str(&mut v, " minutes");
        string_of(&v)
    } else if seconds == 1 {
        string_from_str("1 second")
    } else {
        let mut v = decimal_vec(seconds as u64);
        append_str(&mut v, " seconds");
        string_of(&v)
    }
}

/// The delays to list, given what the config holds: the presets, with a
/// hand-edited value that is not one of them slotted in where it sorts.
pub open spec fn delay_options(c: u32) -> Seq<u32> {
    if c == 0 || c == 10 || c == 30 || c == 60 {
        seq![0u32, 10, 30, 60]
    } else if c < 10 {
        seq![0u32, c, 10, 30, 60]
    } else if c < 30 {
        seq![0u32, 10, c, 30, 60]
    } else if c < 60 {
        seq![0u32, 10, 30, c, 60]
    } else {
        seq![0u32, 10, 30, 60, c]
    }
}

/// The delays to list, given what the config already holds.
pub fn kick_delay_options(current: u32) -> (r: Vec<u32>)
    ensures
        r@ == delay_options(current),
{
    let r: Vec<u32> = if current == 0 || current == 10 || current == 30 || current == 60 {
        vec![0, 10, 30, 60]
    } else if current < 10 {
        vec![0, current, 10, 30, 60]
    } else if current < 30 {
        vec![0, 10, current, 30, 60]
    } else if current < 60 {
        vec![0, 10, 30, current, 60]
    } else {
        vec![0, 10, 30, 60, current]
    };
    assert(r@ =~= delay_options(current));
    r
}

/// The options are sorted, hold every preset, and hold the current value.
pub proof fn lemma_delay_options_sorted_and_complete(c: u32)
    ensures
        forall|i: int, j: int|
            0 <= i < j < delay_options(c).len() ==> delay_options(c)[i] < delay_options(c)[j],
        delay_options(c).contains(c),
        delay_options(c).contains(0u32) && delay_options(c).contains(10u32)
            && delay_options(c).contains(30u32) && delay_options(c).contains(60u32),
{
    let o = delay_options(c);
    if c == 0 || c == 10 || c == 30 || c == 60 {
        assert(o[0] == 0 && o[1] == 10 && o[2] == 30 && o[3] == 60);
    } else if c < 10 {
        assert(o[0] == 0 && o[1] == c && o[2] == 10 && o[3] == 30 && o[4] == 60);
    } else if c < 30 {
        assert(o[0] == 0 && o[1] == 10 && o[2] == c && o[3] == 30 && o[4] == 60);
    } else if c < 60 {
        assert(o[0] == 0 && o[1] == 10 && o[2] == 30 && o[3] == c && o[4] == 60);
    } else {
        assert(o[0] == 0 && o[1] == 10 && o[2] == 30 && o[3] == 60 && o[4] == c);
    }
}

// ---------------------------------------------------------------------------
// Who may run admin commands
// ---------------------------------------------------------------------------

/// How the bot decides who may run admin-gated commands.
#[derive(Debug, Clone, Copy, PartialEq, Eq, Structural)]
pub enum AdminMode {
    /// No gating; every user may run every command.
    Everyone,
    /// Only TeamTalk server admins.
    TtRights,
    /// Only usernames in the `admins` list.
    List,
    /// A TeamTalk server admin or a username in the `admins` list.
    Both,
}

impl Default for AdminMode {
    fn default() -> (r: Self)
        ensures
            r == AdminMode::Both,
    {
        AdminMode::Both
    }
}

// ---------------------------------------------------------------------------
// The config itself
// ---------------------------------------------------------------------------

/// A bot's settings, field for field as the config file holds them.
///
/// The file's floating-point settings are carried here as their IEEE-754 bit
/// patterns (`f32::to_bits` / `f64::to_bits`): nothing in this crate does
/// arithmetic on them, and the one rule that reads one (the volume ramp step
/// must be a positive finite number) is a plain range test on the bits.
#[derive(Debug, Clone, PartialEq)]
pub struct BotConfig {
    pub host: String,
    pub tcp_port: i32,
    pub udp_port: i32,
    pub encrypted: bool,
    pub bot_name: String,
    pub username: String,
    pub password: String,
    pub channel_name: String,
    pub channel_password: String,
    pub bot_gender: String,
    pub admin_mode: AdminMode,
    pub admins: Vec<String>,
    pub default_language: String,
    pub license_name: Option<String>,
    pub license_key: Option<String>,
    pub spotify_quality: String,
    pub spotify_enable_normalization: bool,
    pub normalisation_type: String,
    pub normalisation_method: String,
    /// `f64` bits.
    pub normalisation_pregain_db_bits: u64,
    /// `f64` bits.
    pub normalisation_threshold_dbfs_bits: u64,
    /// `f64` bits.
    pub normalisation_knee_db_bits: u64,
    pub volume: u8,
    pub max_volume: u8,
    pub jitter_buffer_ms: u32,
    /// `f32` bits.
    pub volume_ramp_step_bits: u32,
    pub radio_enabled: bool,
    pub radio_batch_size: u8,
    /// `f32` bits.
    pub radio_delay_bits: u32,
    pub search_limit: u8,
    pub repeat_track: bool,
    pub repeat_queue: bool,
    pub shuffle: bool,
    pub default_service: Service,
    pub enabled_services: EnabledServices,
    pub youtube_cookies_file: String,
    /// Seconds to wait before reconnecting after a server kick; `None` stays
    /// out until started again.
    pub rejoin_after_kick_seconds: Option<u32>,
}

/// Two configs with the same settings: every field equal, text compared
/// by its characters.
pub open spec fn same_settings(a: BotConfig, b: BotConfig) -> bool {
    &&& a.host@ == b.host@
    &&& a.tcp_port == b.tcp_port
    &&& a.udp_port == b.udp_port
    &&& a.encrypted == b.encrypted
    &&& a.bot_name@ == b.bot_name@
    &&& a.username@ == b.username@
    &&& a.password@ == b.password@
    &&& a.channel_name@ == b.channel_name@
    &&& a.channel_password@ == b.channel_password@
    &&& a.bot_gender@ == b.bot_gender@
    &&& a.admin_mode == b.admin_mode
    &&& string_views(a.admins@) == string_views(b.admins@)
    &&& a.default_language@ == b.default_language@
    &&& (a.license_name is Some) == (b.license_name is Some)
    &&& (a.license_name is Some ==> a.license_name->0@ == b.license_name->0@)
    &&& (a.license_key is Some) == (b.license_key is Some)
    &&& (a.license_key is Some ==> a.license_key->0@ == b.license_key->0@)
    &&& a.spotify_quality@ == b.spotify_quality@
    &&& a.spotify_enable_normalization == b.spotify_enable_normalization
    &&& a.normalisation_type@ == b.normalisation_type@
    &&& a.normalisation_method@ == b.normalisation_method@
    &&& a.normalisation_pregain_db_bits == b.normalisation_pregain_db_bits
    &&& a.normalisation_threshold_dbfs_bits == b.normalisation_threshold_dbfs_bits
    &&& a.normalisation_knee_db_bits == b.normalisation_knee_db_bits
    &&& a.volume == b.volume
    &&& a.max_volume == b.max_volume
    &&& a.jitter_buffer_ms == b.jitter_buffer_ms
    &&& a.volume_ramp_step_bits == b.volume_ramp_step_bits
    &&& a.radio_enabled == b.radio_enabled
    &&& a.radio_batch_size == b.radio_batch_size
    &&& a.radio_delay_bits == b.radio_delay_bits
    &&& a.search_limit == b.search_limit
    &&& a.repeat_track == b.repeat_track
    &&& a.repeat_queue == b.repeat_queue
    &&& a.shuffle == b.shuffle
    &&& a.default_service == b.default_service
    &&& a.enabled_services == b.enabled_services
    &&& a.youtube_cookies_file@ == b.youtube_cookies_file@
    &&& a.rejoin_after_kick_seconds == b.rejoin_after_kick_seconds
}

/// `0.03f32`, the default volume ramp step.
pub const DEFAULT_RAMP_STEP_BITS: u32 = 0x3cf5_c28f;

/// `10.0f32`, the default delay between radio batches.
pub const DEFAULT_RADIO_DELAY_BITS: u32 = 0x4120_0000;

/// `0.0f64`, the default normalisation pregain.
pub const DEFAULT_NORM_PREGAIN_BITS: u64 = 0;

/// `-2.0f64`, the default normalisation threshold.
pub const DEFAULT_NORM_THRESHOLD_BITS: u64 = 0xc000_0000_0000_0000;

/// `5.0f64`, the default normalisation knee.
pub const DEFAULT_NORM_KNEE_BITS: u64 = 0x4014_0000_0000_0000;

/// The normalisation type a config without one gets.
pub fn default_norm_type() -> (r: String)
    ensures
        r@ == "auto"@,
{
    string_from_str("auto")
}

/// The normalisation method a config without one gets.
pub fn default_norm_method() -> (r: String)
    ensures
        r@ == "dynamic"@,
{
    string_from_str("dynamic")
}

/// The language a config without one gets.
pub fn default_language_en() -> (r: String)
    ensures
        r@ == "en"@,
{
    string_from_str("en")
}

/// The defaults every field falls back to.
pub open spec fn is_default_config(c: BotConfig) -> bool {
    &&& c.host@ == "localhost"@
    &&& c.tcp_port == 10333
    &&& c.udp_port == 10333
    &&& !c.encrypted
    &&& c.bot_name@ == "Spotify"@
    &&& c.username@.len() == 0
    &&& c.password@.len() == 0
    &&& c.channel_name@ == "/"@
    &&& c.channel_password@.len() == 0
    &&& c.bot_gender@ == "neutral"@
    &&& c.admin_mode == AdminMode::Both
    &&& c.admins@.len() == 0
    &&& c.default_language@ == "en"@
    &&& c.license_name is None
    &&& c.license_key is None
    &&& c.spotify_quality@ == "VERY_HIGH"@
    &&& c.spotify_enable_normalization
    &&& c.normalisation_type@ == "auto"@
    &&& c.normalisation_method@ == "dynamic"@
    &&& c.normalisation_pregain_db_bits == DEFAULT_NORM_PREGAIN_BITS
    &&& c.normalisation_threshold_dbfs_bits == DEFAULT_NORM_THRESHOLD_BITS
    &&& c.normalisation_knee_db_bits == DEFAULT_NORM_KNEE_BITS
    &&& c.volume == 50
    &&& c.max_volume == 70
    &&& c.jitter_buffer_ms == 400
    &&& c.volume_ramp_step_bits == DEFAULT_RAMP_STEP_BITS
    &&& !c.radio_enabled
    &&& c.radio_batch_size == 3
    &&& c.radio_delay_bits == DEFAULT_RADIO_DELAY_BITS
    &&& c.search_limit == 5
    &&& !c.repeat_track
    &&& !c.repeat_queue
    &&& !c.shuffle
    &&& c.default_service == Service::Spotify
    &&& c.enabled_services.spotify && c.enabled_services.youtube
    &&& c.youtube_cookies_file@.len() == 0
    &&& c.rejoin_after_kick_seconds is None
}

impl Default for BotConfig {
    fn default() -> (r: Self)
        ensures
            is_default_config(r),
    {
        BotConfig {
            host: string_from_str("localhost"),
            tcp_port: 10333,
            udp_port: 10333,
            encrypted: false,
            bot_name: string_from_str("Spotify"),
            username: String::new(),
            password: String::new(),
            channel_name: string_from_str("/"),
            channel_password: String::new(),
            bot_gender: string_from_str("neutral"),
            admin_mode: AdminMode::Both,
            admins: Vec::new(),
            default_language: default_language_en(),
            license_name: None,
            license_key: None,
            spotify_quality: string_from_str("VERY_HIGH"),
            spotify_enable_normalization: true,
            normalisation_type: default_norm_type(),
            normalisation_method: default_norm_method(),
            normalisation_pregain_db_bits: DEFAULT_NORM_PREGAIN_BITS,
            normalisation_threshold_dbfs_bits: DEFAULT_NORM_THRESHOLD_BITS,
            normalisation_knee_db_bits: DEFAULT_NORM_KNEE_BITS,
            volume: 50,
            max_volume: 70,
            jitter_buffer_ms: 400,
            volume_ramp_step_bits: DEFAULT_RAMP_STEP_BITS,
            radio_enabled: false,
            radio_batch_size: 3,
            radio_delay_bits: DEFAULT_RADIO_DELAY_BITS,
            search_limit: 5,
            repeat_track: false,
            repeat_queue: false,
            shuffle: false,
            default_service: Service::Spotify,
            enabled_services: EnabledServices { spotify: true, youtube: true },
            youtube_cookies_file: String::new(),
            rejoin_after_kick_seconds: None,
        }
    }
}

/// One correction `validate` made, with the values it saw.
#[derive(Debug, Clone, Copy, PartialEq, Eq, Structural)]
pub enum Correction {
    MaxVolume { max_volume: u8 },
    Volume { volume: u8, max_volume: u8 },
    RadioBatchSize,
    SearchLimit { search_limit: u8, clamped: u8 },
    JitterBuffer { jitter_buffer_ms: u32 },
    /// The ramp step as `f32` bits.
    VolumeRampStep { bits: u32 },
    TcpPort { port: i32 },
    UdpPort { port: i32 },
    Host,
    EnabledServices,
    BotName,
}

/// A usable volume ramp step is a positive finite `f32`: exactly the bit
/// patterns from the smallest positive subnormal up to the largest finite
/// value. Zero, negatives (including -0.0), infinities and NaNs fall outside.
pub open spec fn ramp_step_usable(bits: u32) -> bool {
    0 < bits < 0x7f80_0000
}

pub open spec fn port_usable(p: i32) -> bool {
    1 <= p <= 65535
}

pub open spec fn clamp_search_limit(s: u8) -> u8 {
    if s < 1 {
        1
    } else if s > 20 {
        20
    } else {
        s
    }
}

pub open spec fn capped_max_volume(c: BotConfig) -> u8 {
    if c.max_volume > 100 {
        100
    } else {
        c.max_volume
    }
}

pub open spec fn push_if<T>(s: Seq<T>, b: bool, x: T) -> Seq<T> {
    if b {
        s.push(x)
    } else {
        s
    }
}

/// The corrections `validate` reports for a config, in the order it checks.
pub open spec fn corrections(c: BotConfig) -> Seq<Correction> {
    let mv = capped_max_volume(c);
    let s = push_if(Seq::empty(), c.max_volume > 100, Correction::MaxVolume { max_volume: c.max_volume });
    let s = push_if(s, c.volume > mv, Correction::Volume { volume: c.volume, max_volume: mv });
    let s = push_if(s, c.radio_batch_size < 1, Correction::RadioBatchSize);
    let s = push_if(
        s,
        c.search_limit < 1 || c.search_limit > 20,
        Correction::SearchLimit {
            search_limit: c.search_limit,
            clamped: clamp_search_limit(c.search_limit),
        },
    );
    let s = push_if(
        s,
        c.jitter_buffer_ms > 2000,
        Correction::JitterBuffer { jitter_buffer_ms: c.jitter_buffer_ms },
    );
    let s = push_if(
        s,
        !ramp_step_usable(c.volume_ramp_step_bits),
        Correction::VolumeRampStep { bits: c.volume_ramp_step_bits },
    );
    let s = push_if(s, !port_usable(c.tcp_port), Correction::TcpPort { port: c.tcp_port });
    let s = push_if(s, !port_usable(c.udp_port), Correction::UdpPort { port: c.udp_port });
    let s = push_if(s, text::is_blank(c.host@), Correction::Host);
    let s = push_if(
        s,
        !c.enabled_services.spotify && !c.enabled_services.youtube,
        Correction::EnabledServices,
    );
    push_if(s, text::is_blank(c.bot_name@), Correction::BotName)
}

/// The services a config ends up with: both, when it listed none.
pub open spec fn repaired_services(e: EnabledServices) -> EnabledServices {
    if !e.spotify && !e.youtube {
        EnabledServices { spotify: true, youtube: true }
    } else {
        e
    }
}

/// The numeric settings of `new` are those of `old` put back in range.
pub open spec fn levels_validated(old: BotConfig, new: BotConfig) -> bool {
    let mv = capped_max_volume(old);
    &&& new.max_volume == mv
    &&& new.volume == if old.volume > mv {
        mv
    } else {
        old.volume
    }
    &&& new.radio_batch_size == if old.radio_batch_size < 1 {
        1
    } else {
        old.radio_batch_size
    }
    &&& new.search_limit == clamp_search_limit(old.search_limit)
    &&& new.jitter_buffer_ms == if old.jitter_buffer_ms > 2000 {
        2000
    } else {
        old.jitter_buffer_ms
    }
    &&& new.volume_ramp_step_bits == if ramp_step_usable(old.volume_ramp_step_bits) {
        old.volume_ramp_step_bits
    } else {
        DEFAULT_RAMP_STEP_BITS
    }
    &&& new.tcp_port == if port_usable(old.tcp_port) {
        old.tcp_port
    } else {
        10333
    }
    &&& new.udp_port == if port_usable(old.udp_port) {
        old.udp_port
    } else {
        10333
    }
}

/// The host, bot name and services of `new` are those of `old` repaired.
pub open spec fn identity_validated(old: BotConfig, new: BotConfig) -> bool {
    &&& if text::is_blank(old.host@) {
        new.host@ == "localhost"@
    } else {
        new.host == old.host
    }
    &&& new.enabled_services == repaired_services(old.enabled_services)
    &&& new.default_service == match only_service(repaired_services(old.enabled_services)) {
        Some(s) => s,
        None => old.default_service,
    }
    &&& if text::is_blank(old.bot_name@) {
        new.bot_name@ == "Spotify"@
    } else {
        new.bot_name == old.bot_name
    }
}

/// Every setting `validate` does not police is left exactly as it was.
pub open spec fn others_unchanged(old: BotConfig, new: BotConfig) -> bool {
    &&& new.encrypted == old.encrypted
    &&& new.username == old.username
    &&& new.password == old.password
    &&& new.channel_name == old.channel_name
    &&& new.channel_password == old.channel_password
    &&& new.bot_gender == old.bot_gender
    &&& new.admin_mode == old.admin_mode
    &&& new.admins == old.admins
    &&& new.default_language == old.default_language
    &&& new.license_name == old.license_name
    &&& new.license_key == old.license_key
    &&& new.spotify_quality == old.spotify_quality
    &&& new.spotify_enable_normalization == old.spotify_enable_normalization
    &&& new.normalisation_type == old.normalisation_type
    &&& new.normalisation_method == old.normalisation_method
    &&& new.normalisation_pregain_db_bits == old.normalisation_pregain_db_bits
    &&& new.normalisation_threshold_dbfs_bits == old.normalisation_threshold_dbfs_bits
    &&& new.normalisation_knee_db_bits == old.normalisation_knee_db_bits
    &&& new.radio_enabled == old.radio_enabled
    &&& new.radio_delay_bits == old.radio_delay_bits
    &&& new.repeat_track == old.repeat_track
    &&& new.repeat_queue == old.repeat_queue
    &&& new.shuffle == old.shuffle
    &&& new.youtube_cookies_file == old.youtube_cookies_file
    &&& new.rejoin_after_kick_seconds == old.rejoin_after_kick_seconds
}

/// `new` is `old` with every out-of-range setting put back in range, and
/// nothing else touched.
pub open spec fn validated_from(old: BotConfig, new: BotConfig) -> bool {
    &&& levels_validated(old, new)
    &&& identity_validated(old, new)
    &&& others_unchanged(old, new)
}

/// Every setting `validate` polices is in range.
pub open spec fn settings_in_range(c: BotConfig) -> bool {
    &&& c.max_volume <= 100
    &&& c.volume <= c.max_volume
    &&& c.radio_batch_size >= 1
    &&& 1 <= c.search_limit <= 20
    &&& c.jitter_buffer_ms <= 2000
    &&& ramp_step_usable(c.volume_ramp_step_bits)
    &&& port_usable(c.tcp_port)
    &&& port_usable(c.udp_port)
    &&& !text::is_blank(c.host@)
    &&& (c.enabled_services.spotify || c.enabled_services.youtube)
    &&& !text::is_blank(c.bot_name@)
    &&& (only_service(c.enabled_services) matches Some(s) ==> c.default_service == s)
}

fn is_blank_string(s: &String) -> (r: bool)
    ensures
        r == text::is_blank(s@),
{
    is_blank_vec(&chars_of(s.as_str()))
}

impl BotConfig {
    /// The corrections `validate` would make, without making them.
    pub fn corrections(&self) -> (r: Vec<Correction>)
        ensures
            r@ == corrections(*self),
    {
        let mut w: Vec<Correction> = Vec::new();
        let mv = if self.max_volume > 100 {
            100
        } else {
            self.max_volume
        };
        if self.max_volume > 100 {
            w.push(Correction::MaxVolume { max_volume: self.max_volume });
        }
        if self.volume > mv {
            w.push(Correction::Volume { volume: self.volume, max_volume: mv });
        }
        if self.radio_batch_size < 1 {
            w.push(Correction::RadioBatchSize);
        }
        if self.search_limit < 1 || self.search_limit > 20 {
            let clamped = if self.search_limit < 1 {
                1
            } else {
                20
            };
            w.push(Correction::SearchLimit { search_limit: self.search_limit, clamped: clamped });
        }
        if self.jitter_buffer_ms > 2000 {
            w.push(Correction::JitterBuffer { jitter_buffer_ms: self.jitter_buffer_ms });
        }
        if !(0 < self.volume_ramp_step_bits && self.volume_ramp_step_bits < 0x7f80_0000) {
            w.push(Correction::VolumeRampStep { bits: self.volume_ramp_step_bits });
        }
        if !(1 <= self.tcp_port && self.tcp_port <= 65535) {
            w.push(Correction::TcpPort { port: self.tcp_port });
        }
        if !(1 <= self.udp_port && self.udp_port <= 65535) {
            w.push(Correction::UdpPort { port: self.udp_port });
        }
        if is_blank_string(&self.host) {
            w.push(Correction::Host);
        }
        if !self.enabled_services.spotify && !self.enabled_services.youtube {
            w.push(Correction::EnabledServices);
        }
        if is_blank_string(&self.bot_name) {
            w.push(Correction::BotName);
        }
        w
    }

    /// Clamp out-of-range fields to sane values, returning the corrections
    /// made. The default service is moved onto the one enabled service
    /// silently: there is no other answer it could have.
    pub fn validate(&mut self) -> (r: Vec<Correction>)
        ensures
            validated_from(*old(self), *final(self)),
            r@ == corrections(*old(self)),
    {
        let warnings = self.corrections();
        let max_volume = if self.max_volume > 100 {
            100
        } else {
            self.max_volume
        };
        let volume = if self.volume > max_volume {
            max_volume
        } else {
            self.volume
        };
        let radio_batch_size = if self.radio_batch_size < 1 {
            1
        } else {
            self.radio_batch_size
        };
        let search_limit = if self.search_limit < 1 {
            1
        } else if self.search_limit > 20 {
            20
        } else {
            self.search_limit
        };
        let jitter_buffer_ms = if self.jitter_buffer_ms > 2000 {
            2000
        } else {
            self.jitter_buffer_ms
        };
        let ramp = if 0 < self.volume_ramp_step_bits && self.volume_ramp_step_bits < 0x7f80_0000 {
            self.volume_ramp_step_bits
        } else {
            DEFAULT_RAMP_STEP_BITS
        };
        let tcp_port = if 1 <= self.tcp_port && self.tcp_port <= 65535 {
            self.tcp_port
        } else {
            10333
        };
        let udp_port = if 1 <= self.udp_port && self.udp_port <= 65535 {
            self.udp_port
        } else {
            10333
        };
        let services = if !self.enabled_services.spotify && !self.enabled_services.youtube {
            EnabledServices { spotify: true, youtube: true }
        } else {
            self.enabled_services
        };
        let default_service = match services.only() {
            Some(only) => only,
            None => self.default_service,
        };
        let host_blank = is_blank_string(&self.host);
        let name_blank = is_blank_string(&self.bot_name);
        self.max_volume = max_volume;
        self.volume = volume;
        self.radio_batch_size = radio_batch_size;
        self.search_limit = search_limit;
        self.jitter_buffer_ms = jitter_buffer_ms;
        self.volume_ramp_step_bits = ramp;
        self.tcp_port = tcp_port;
        self.udp_port = udp_port;
        self.enabled_services = services;
        self.default_service = default_service;
        assert(levels_validated(*old(self), *self));
        if host_blank {
            self.host = string_from_str("localhost");
        }
        if name_blank {
            self.bot_name = string_from_str("Spotify");
        }
        assert(identity_validated(*old(self), *self));
        assert(others_unchanged(*old(self), *self));
        warnings
    }
}

/// A validated config is settled: every setting is in range, so validating
/// it again reports nothing and changes nothing.
pub proof fn lemma_validate_settles(old: BotConfig, new: BotConfig)
    requires
        validated_from(old, new),
    ensures
        settings_in_range(new),
        corrections(new).len() == 0,
        validated_from(new, new),
{
    reveal_strlit("localhost");
    reveal_strlit("Spotify");
    assert(!text::is_blank(new.host@)) by {
        if text::is_blank(old.host@) {
            assert(!text::is_ws(new.host@[0]));
        }
    }
    assert(!text::is_blank(new.bot_name@)) by {
        if text::is_blank(old.bot_name@) {
            assert(!text::is_ws(new.bot_name@[0]));
        }
    }
}

/// The defaults need no correction.
pub proof fn lemma_default_config_is_clean(c: BotConfig)
    requires
        is_default_config(c),
    ensures
        settings_in_range(c),
        corrections(c).len() == 0,
{
    reveal_strlit("localhost");
    reveal_strlit("Spotify");
    assert(!text::is_ws(c.host@[0]));
    assert(!text::is_ws(c.bot_name@[0]));
}

/// How a correction is reported.
pub open spec fn correction_text(c: Correction) -> Seq<char> {
    match c {
        Correction::MaxVolume { max_volume: was } => "max_volume "@ + text::decimal(was as nat)
            + " > 100, clamped to 100"@,
        Correction::Volume { volume: was, max_volume: max } => "volume "@ + text::decimal(was as nat)
            + " > max_volume "@ + text::decimal(max as nat) + ", clamped"@,
        Correction::RadioBatchSize => "radio_batch_size < 1, set to 1"@,
        Correction::SearchLimit { search_limit: was, clamped: now } => "search_limit "@ + text::decimal(was as nat)
            + " out of 1..=20, set to "@ + text::decimal(now as nat),
        Correction::JitterBuffer { jitter_buffer_ms: was } => "jitter_buffer_ms "@ + text::decimal(was as nat)
            + " > 2000, clamped to 2000"@,
        Correction::VolumeRampStep { .. } => "volume_ramp_step invalid, reset to 0.03"@,
        Correction::TcpPort { port: was } => "tcp_port "@ + signed_decimal(was as int)
            + " out of range, reset to 10333"@,
        Correction::UdpPort { port: was } => "udp_port "@ + signed_decimal(was as int)
            + " out of range, reset to 10333"@,
        Correction::Host => "host is empty, reset to localhost"@,
        Correction::EnabledServices => "enabledServices lists no known service, enabling both"@,
        Correction::BotName => "bot_name is empty, reset to Spotify"@,
    }
}

/// How `Display` writes a signed integer.
pub open spec fn signed_decimal(i: int) -> Seq<char> {
    if i < 0 {
        seq!['-'] + text::decimal((-i) as nat)
    } else {
        text::decimal(i as nat)
    }
}

/// `i.to_string()` for an `i32`, as characters.
pub fn signed_decimal_vec(i: i32) -> (r: Vec<char>)
    ensures
        r@ == signed_decimal(i as int),
{
    if i < 0 {
        let magnitude = (-(i as i64)) as u64;
        let mut v: Vec<char> = vec!['-'];
        let d = decimal_vec(magnitude);
        crate::text::append_seq(&mut v, &d);
        v
    } else {
        decimal_vec(i as u64)
    }
}

impl Correction {
    /// The sentence a correction is reported with. The ramp step's old value
    /// is a float, which this crate does not print; the sentence leaves it out.
    pub fn message(&self) -> (r: String)
        ensures
            r@ == correction_text(*self),
    {
        let mut v: Vec<char> = Vec::new();
        match *self {
            Correction::MaxVolume { max_volume: was } => {
                append_str(&mut v, "max_volume ");
                crate::text::append_seq(&mut v, &decimal_vec(was as u64));
                append_str(&mut v, " > 100, clamped to 100");
            },
            Correction::Volume { volume: was, max_volume: max } => {
                append_str(&mut v, "volume ");
                crate::text::append_seq(&mut v, &decimal_vec(was as u64));
                append_str(&mut v, " > max_volume ");
                crate::text::append_seq(&mut v, &decimal_vec(max as u64));
                append_str(&mut v, ", clamped");
            },
            Correction::RadioBatchSize => {
                append_str(&mut v, "radio_batch_size < 1, set to 1");
            },
            Correction::SearchLimit { search_limit: was, clamped: now } => {
                append_str(&mut v, "search_limit ");
                crate::text::append_seq(&mut v, &decimal_vec(was as u64));
                append_str(&mut v, " out of 1..=20, set to ");
                crate::text::append_seq(&mut v, &decimal_vec(now as u64));
            },
            Correction::JitterBuffer { jitter_buffer_ms: was } => {
                append_str(&mut v, "jitter_buffer_ms ");
                crate::text::append_seq(&mut v, &decimal_vec(was as u64));
                append_str(&mut v, " > 2000, clamped to 2000");
            },
            Correction::VolumeRampStep { .. } => {
                append_str(&mut v, "volume_ramp_step invalid, reset to 0.03");
            },
            Correction::TcpPort { port: was } => {
                append_str(&mut v, "tcp_port ");
                crate::text::append_seq(&mut v, &signed_decimal_vec(was));
                append_str(&mut v, " out of range, reset to 10333");
            },
            Correction::UdpPort { port: was } => {
                append_str(&mut v, "udp_port ");
                crate::text::append_seq(&mut v, &signed_decimal_vec(was));
                append_str(&mut v, " out of range, reset to 10333");
            },
            Correction::Host => {
                append_str(&mut v, "host is empty, reset to localhost");
            },
            Correction::EnabledServices => {
                append_str(&mut v, "enabledServices lists no known service, enabling both");
            },
            Correction::BotName => {
                append_str(&mut v, "bot_name is empty, reset to Spotify");
            },
        }
        string_of(&v)
    }
}

// ---------------------------------------------------------------------------
// Which files are bots
// ---------------------------------------------------------------------------

/// What `serde_json::from_str::<serde_json::Value>` makes of a text, as far
/// as the config rules read it: `Err` with the parser's message when the text
/// is not JSON, otherwise the top-level member `key` when it is a string.
pub uninterp spec fn json_string_member(text: Seq<char>, key: Seq<char>) -> Result<
    Option<Seq<char>>,
    Seq<char>,
>;

pub open spec fn json_reading_view(r: Result<Option<String>, String>) -> Result<
    Option<Seq<char>>,
    Seq<char>,
> {
    match r {
        Ok(Some(s)) => Ok(Some(s@)),
        Ok(None) => Ok(None),
        Err(e) => Err(e@),
    }
}

/// Parse `text` as JSON with `serde_json::from_str::<serde_json::Value>`, and
/// hand back either the error's message or the string value of the top-level
/// member `key`. The result is named, not described: it is whatever
/// serde_json's parser says about these two arguments.
#[verifier::external_body]
fn read_json_string_member(text: &str, key: &str) -> (r: Result<Option<String>, String>)
    ensures
        json_reading_view(r) == json_string_member(text@, key@),
{
    match serde_json::from_str::<serde_json::Value>(text) {
        Ok(v) => Ok(v.get(key).and_then(|m| m.as_str()).map(|m| m.to_string())),
        Err(e) => Err(e.to_string()),
    }
}

/// Whether a file's text says where the server is: its top-level `host` is a
/// string with something other than whitespace in it.
pub open spec fn names_server(text: Seq<char>) -> bool {
    match json_string_member(text, "host"@) {
        Ok(Some(h)) => !text::is_blank(h),
        _ => false,
    }
}

/// Whether the file itself says where the server is. Checking the parsed
/// config cannot answer this: every field has a default, so a file with no
/// `host` at all still arrives with `localhost` in it.
pub fn names_a_server(contents: &str) -> (r: bool)
    ensures
        r == names_server(contents@),
{
    match read_json_string_member(contents, "host") {
        Ok(Some(h)) => !is_blank_string(&h),
        _ => false,
    }
}

/// Why a config file's text cannot be used as a bot, or `None` when it can.
/// `typed_error` is the message from reading the text as a `BotConfig`, which
/// the caller does (it needs serde's derive, which lives outside this crate).
pub open spec fn config_problem(text: Seq<char>, typed_error: Option<Seq<char>>) -> Option<
    Seq<char>,
> {
    match json_string_member(text, "host"@) {
        Err(e) => if text::is_blank(text) {
            Some("is empty"@)
        } else {
            Some("is not valid JSON: "@ + e)
        },
        Ok(_) => match typed_error {
            Some(e) => Some("is not valid: "@ + e),
            None => if names_server(text) {
                None
            } else {
                Some("does not say which server to connect to (no \"host\")"@)
            },
        },
    }
}

/// Read one config's text, or say in one sentence why it cannot be used: not
/// JSON at all (or empty), not a valid config, or naming no server.
pub fn config_text_problem(text: &str, typed_error: Option<String>) -> (r: Option<String>)
    ensures
        match r {
            Some(m) => config_problem(text@, match typed_error {
                Some(e) => Some(e@),
                None => None,
            }) == Some(m@),
            None => config_problem(text@, match typed_error {
                Some(e) => Some(e@),
                None => None,
            }) is None,
        },
{
    match read_json_string_member(text, "host") {
        Err(e) => {
            if is_blank_vec(&chars_of(text)) {
                Some(string_from_str("is empty"))
            } else {
                let mut v = chars_of("is not valid JSON: ");
                append_str(&mut v, e.as_str());
                Some(string_of(&v))
            }
        },
        Ok(host) => match typed_error {
            Some(e) => {
                let mut v = chars_of("is not valid: ");
                append_str(&mut v, e.as_str());
                Some(string_of(&v))
            },
            None => {
                let named = match host {
                    Some(h) => !is_blank_string(&h),
                    None => false,
                };
                if named {
                    None
                } else {
                    Some(string_from_str("does not say which server to connect to (no \"host\")"))
                }
            },
        },
    }
}

/// Why a config file read for running cannot be used: its text did not
/// parse as a config (`typed_error`, the parser's message), or it names no
/// server. Every setting has a default, so a file that merely parses would
/// otherwise run as "connect to localhost".
pub open spec fn load_problem(path: Seq<char>, text: Seq<char>, typed_error: Option<Seq<char>>) -> Option<
    Seq<char>,
> {
    match typed_error {
        Some(e) => Some("Failed to parse "@ + path + ": "@ + e),
        None => if names_server(text) {
            None
        } else {
            Some(
                path
                    + " does not name a server, so it is not a bot config. If you meant a different file, point --config at it."@,
            )
        },
    }
}

/// The error for a config file about to be run, if it has one.
pub fn parse_file_problem(path: &str, text: &str, typed_error: Option<&str>) -> (r: Option<String>)
    ensures
        match r {
            Some(m) => load_problem(path@, text@, match typed_error {
                Some(e) => Some(e@),
                None => None,
            }) == Some(m@),
            None => load_problem(path@, text@, match typed_error {
                Some(e) => Some(e@),
                None => None,
            }) is None,
        },
{
    match typed_error {
        Some(e) => {
            let mut v = chars_of("Failed to parse ");
            append_str(&mut v, path);
            append_str(&mut v, ": ");
            append_str(&mut v, e);
            Some(string_of(&v))
        },
        None => {
            if names_a_server(text) {
                None
            } else {
                let mut v = chars_of(path);
                append_str(
                    &mut v,
                    " does not name a server, so it is not a bot config. If you meant a different file, point --config at it.",
                );
                Some(string_of(&v))
            }
        },
    }
}

/// Which config a bare run (no `--config`) uses.
#[derive(Debug, Clone, Copy, PartialEq, Eq, Structural)]
pub enum ConfigChoice {
    /// Nothing is configured.
    NoConfig,
    /// Run the config at this position; `announce` when several were there
    /// and nobody could be asked, so the log records which one ran.
    Run { index: usize, announce: bool },
    /// Ask the person at the terminal.
    Ask,
}

/// Which config a bare run should use, out of `configs` (name and path).
///
/// One config is not a choice. Several mean asking, with a terminal; without
/// one, the first is run and announced rather than chosen silently.
pub fn choose_config(configs: &[(String, String)], interactive: bool) -> (r: ConfigChoice)
    ensures
        configs.len() == 0 ==> r == ConfigChoice::NoConfig,
        configs.len() == 1 ==> r == (ConfigChoice::Run { index: 0, announce: false }),
        configs.len() > 1 && !interactive ==> r == (ConfigChoice::Run { index: 0, announce: true }),
        configs.len() > 1 && interactive ==> r == ConfigChoice::Ask,
{
    if configs.len() == 0 {
        ConfigChoice::NoConfig
    } else if configs.len() == 1 {
        ConfigChoice::Run { index: 0, announce: false }
    } else if !interactive {
        ConfigChoice::Run { index: 0, announce: true }
    } else {
        ConfigChoice::Ask
    }
}

/// What a run without a terminal says when it picks the first of several.
pub fn several_configs_notice(name: &str) -> (r: String)
    ensures
        r@ == "Several bots are configured; running \""@ + name@
            + "\". Pass --config to pick another."@,
{
    let mut v = chars_of("Several bots are configured; running \"");
    append_str(&mut v, name);
    append_str(&mut v, "\". Pass --config to pick another.");
    string_of(&v)
}

/// How a failed read is reported: the system's message without its trailing
/// "(os error N)", which is a number for the program, not for whoever has to
/// fix the permissions.
pub open spec fn read_failure_text(message: Seq<char>) -> Seq<char> {
    let k = text::find(message, " (os error"@);
    let reason = if k < 0 {
        message
    } else {
        message.subrange(0, k)
    };
    "cannot be read ("@ + reason + ")"@
}

/// The sentence for a config file that could not be read.
pub fn read_failure_reason(message: &str) -> (r: String)
    ensures
        r@ == read_failure_text(message@),
{
    let m = chars_of(message);
    let found = crate::text::find_str(&m, " (os error");
    proof {
        text::lemma_find_facts(m@, " (os error"@);
    }
    let reason = match found {
        Some(k) => slice_vec(&m, 0, k),
        None => m,
    };
    let mut v = chars_of("cannot be read (");
    crate::text::append_seq(&mut v, &reason);
    append_str(&mut v, ")");
    string_of(&v)
}

/// Index of the last `c` in `s`, or -1.
pub open spec fn last_index_of(s: Seq<char>, c: char) -> int
    decreases s.len(),
{
    if s.len() == 0 {
        -1
    } else if s.last() == c {
        s.len() - 1
    } else {
        last_index_of(s.drop_last(), c)
    }
}

/// `Path::file_stem` and `Path::extension` of a bare file name.
pub open spec fn stem_and_extension(name: Seq<char>) -> (Seq<char>, Option<Seq<char>>) {
    let k = last_index_of(name, '.');
    if name == ".."@ || k <= 0 {
        (name, None)
    } else {
        (name.subrange(0, k), Some(name.subrange(k + 1, name.len() as int)))
    }
}

/// Names in the config folder that are never bots: the app-wide settings,
/// the per-user language store, and login artifacts.
pub open spec fn skip_listed(stem: Seq<char>) -> bool {
    ||| stem == "credentials"@
    ||| stem == "cookies"@
    ||| stem == "sessions"@
    ||| stem == "settings"@
    ||| stem == "lang_prefs"@
}

/// The bot name a file in the config folder would carry: its stem, when it
/// is a `.json` file that is not skip-listed.
pub open spec fn candidate_stem(name: Seq<char>) -> Option<Seq<char>> {
    let (stem, ext) = stem_and_extension(name);
    if ext == Some("json"@) && !skip_listed(stem) {
        Some(stem)
    } else {
        None
    }
}

proof fn lemma_last_index_bounds(s: Seq<char>, c: char)
    ensures
        -1 <= last_index_of(s, c) < s.len(),
        last_index_of(s, c) >= 0 ==> s[last_index_of(s, c)] == c,
        forall|i: int| last_index_of(s, c) < i < s.len() ==> s[i] != c,
    decreases s.len(),
{
    if s.len() > 0 && s.last() != c {
        lemma_last_index_bounds(s.drop_last(), c);
        assert forall|i: int| last_index_of(s, c) < i < s.len() implies s[i] != c by {
            if i < s.len() - 1 {
                assert(s[i] == s.drop_last()[i]);
            }
        }
    }
}

proof fn lemma_last_index_scan(s: Seq<char>, c: char, k: int)
    requires
        -1 <= k < s.len(),
        k >= 0 ==> s[k] == c,
        forall|i: int| k < i < s.len() ==> s[i] != c,
    ensures
        last_index_of(s, c) == k,
    decreases s.len(),
{
    if s.len() > 0 && k < s.len() - 1 {
        assert forall|i: int| k < i < s.drop_last().len() implies s.drop_last()[i] != c by {
            assert(s.drop_last()[i] == s[i]);
        }
        if k >= 0 {
            assert(s.drop_last()[k] == s[k]);
        }
        lemma_last_index_scan(s.drop_last(), c, k);
    }
}

/// Every bot name that is not skip-listed is read back from its file name:
/// `<name>.json` names the bot `<name>`, whatever dots the name itself
/// holds (the extension is what follows the last dot).
pub proof fn lemma_json_file_names_its_bot(name: Seq<char>)
    requires
        name.len() > 0,
        !skip_listed(name),
    ensures
        candidate_stem(name + ".json"@) == Some(name),
{
    reveal_strlit(".json");
    reveal_strlit("json");
    reveal_strlit("..");
    let f = name + ".json"@;
    assert(f[name.len() as int] == '.');
    assert forall|i: int| name.len() < i < f.len() implies f[i] != '.' by {
        assert(f[i] == ".json"@[i - name.len()]);
    }
    lemma_last_index_scan(f, '.', name.len() as int);
    assert(f != ".."@) by {
        if f == ".."@ {
            assert(f.len() == 2);
        }
    }
    assert(f.subrange(0, name.len() as int) =~= name);
    assert(f.subrange(name.len() as int + 1, f.len() as int) =~= "json"@);
}

/// The bot name a file in the config folder would carry, if it is one.
pub fn config_file_stem(file_name: &str) -> (r: Option<String>)
    ensures
        match r {
            Some(s) => candidate_stem(file_name@) == Some(s@),
            None => candidate_stem(file_name@) is None,
        },
{
    let v = chars_of(file_name);
    let mut k: usize = v.len();
    while k > 0 && v[k - 1] != '.'
        invariant
            k <= v.len(),
            forall|i: int| k <= i < v.len() ==> v@[i] != '.',
        decreases k,
    {
        k = k - 1;
    }
    proof {
        if k > 0 {
            lemma_last_index_scan(v@, '.', k - 1);
        } else {
            lemma_last_index_scan(v@, '.', -1);
        }
    }
    if vec_eq_str(&v, "..") || k <= 1 {
        return None;
    }
    let stem = slice_vec(&v, 0, k - 1);
    let ext = slice_vec(&v, k, v.len());
    if !vec_eq_str(&ext, "json") {
        return None;
    }
    if vec_eq_str(&stem, "credentials") || vec_eq_str(&stem, "cookies") || vec_eq_str(
        &stem,
        "sessions",
    ) || vec_eq_str(&stem, "settings") || vec_eq_str(&stem, "lang_prefs") {
        return None;
    }
    Some(string_of(&stem))
}

/// One file found in the config folder: its name, its path, and why it
/// cannot be used (`None` when it can).
pub struct ScannedFile {
    pub file_name: String,
    pub path: String,
    pub problem: Option<String>,
}

/// `(stem, path)` for every usable candidate, in scan order.
pub open spec fn usable_configs(found: Seq<ScannedFile>) -> Seq<(Seq<char>, Seq<char>)>
    decreases found.len(),
{
    if found.len() == 0 {
        seq![]
    } else {
        let rest = usable_configs(found.drop_last());
        let f = found.last();
        match candidate_stem(f.file_name@) {
            Some(stem) => if f.problem is None {
                rest.push((stem, f.path@))
            } else {
                rest
            },
            None => rest,
        }
    }
}

/// `"<file name> <reason>"` for every unusable candidate, in scan order.
pub open spec fn config_problems(found: Seq<ScannedFile>) -> Seq<Seq<char>>
    decreases found.len(),
{
    if found.len() == 0 {
        seq![]
    } else {
        let rest = config_problems(found.drop_last());
        let f = found.last();
        match (candidate_stem(f.file_name@), f.problem) {
            (Some(_), Some(p)) => rest.push(f.file_name@ + seq![' '] + p@),
            _ => rest,
        }
    }
}

pub open spec fn pair_views(v: Seq<(String, String)>) -> Seq<(Seq<char>, Seq<char>)> {
    v.map_values(|p: (String, String)| (p.0@, p.1@))
}

/// Sort key for `(name, path)` pairs: the name.
pub open spec fn by_name() -> spec_fn((Seq<char>, Seq<char>)) -> Seq<char> {
    |p: (Seq<char>, Seq<char>)| p.0
}

/// Sort key for strings: the string itself.
pub open spec fn by_text() -> spec_fn(Seq<char>) -> Seq<char> {
    |s: Seq<char>| s
}

/// Sort `(name, path)` pairs by name, keeping ties in order.
fn sort_pairs_by_name(v: Vec<(String, String)>) -> (r: Vec<(String, String)>)
    ensures
        pair_views(r@) == text::sort_by_key(pair_views(v@), by_name()),
{
    let mut out: Vec<(String, String)> = Vec::new();
    let mut v = v;
    let ghost input = pair_views(v@);
    let mut taken: Vec<(String, String)> = Vec::new();
    // Move the input out front to back, so each element is inserted in order.
    let mut rev: Vec<(String, String)> = Vec::new();
    while v.len() > 0
        invariant
            pair_views(v@) + pair_views(rev@).reverse() == input,
        decreases v.len(),
    {
        let ghost before = v@;
        let x = v.pop().unwrap();
        rev.push(x);
        proof {
            assert(pair_views(v@) + pair_views(rev@).reverse() =~= input);
        }
    }
    assert(pair_views(rev@).reverse() =~= input);
    let mut done: usize = 0;
    let n = rev.len();
    proof {
        assert(input.subrange(0, 0) =~= Seq::<(Seq<char>, Seq<char>)>::empty());
    }
    while rev.len() > 0
        invariant
            n == input.len(),
            rev.len() + done == n,
            pair_views(rev@).reverse() == input.subrange(done as int, n as int),
            pair_views(out@) == text::sort_by_key(input.subrange(0, done as int), by_name()),
            out.len() == done,
        decreases rev.len(),
    {
        let ghost r0 = pair_views(rev@);
        proof {
            assert(r0.reverse()[0] == r0[r0.len() - 1]);
            assert(input.subrange(done as int, n as int)[0] == input[done as int]);
        }
        let x = rev.pop().unwrap();
        let ghost xv = (x.0@, x.1@);
        proof {
            assert(xv == input[done as int]);
            text::lemma_insert_pos_bounds(pair_views(out@), xv, by_name());
        }
        let xname = chars_of(x.0.as_str());
        let mut j: usize = 0;
        let mut stop = false;
        while j < out.len() && !stop
            invariant
                j <= out.len(),
                xname@ == xv.0,
                forall|k: int| 0 <= k < j ==> !text::seq_lt(xv.0, #[trigger] pair_views(out@)[k].0),
                stop ==> j < out.len() && text::seq_lt(xv.0, pair_views(out@)[j as int].0),
            decreases out.len() - j + if stop { 0int } else { 1int },
        {
            let other = chars_of(out[j].0.as_str());
            assert(pair_views(out@)[j as int].0 == out@[j as int].0@);
            if vec_lt(&xname, &other) {
                stop = true;
            } else {
                j = j + 1;
            }
        }
        proof {
            assert forall|k: int| 0 <= k < j implies !text::seq_lt(by_name()(xv), by_name()(#[trigger] pair_views(out@)[k])) by {}
            if j < out.len() {
                assert(text::seq_lt(by_name()(xv), by_name()(pair_views(out@)[j as int])));
            }
            text::lemma_insert_pos_scan(pair_views(out@), xv, by_name(), j as int);
            let pre = input.subrange(0, done + 1);
            assert(pre.drop_last() =~= input.subrange(0, done as int));
            assert(pre.last() == xv);
        }
        let ghost out_before = pair_views(out@);
        out.insert(j, x);
        proof {
            assert(pair_views(out@) =~= out_before.insert(j as int, xv));
        }
        proof {
            assert(pair_views(rev@) =~= r0.drop_last());
            assert forall|i: int| 0 <= i < n - done - 1 implies #[trigger] pair_views(rev@).reverse()[i]
                == input.subrange(done + 1, n as int)[i] by {
                assert(r0.reverse()[i + 1] == input.subrange(done as int, n as int)[i + 1]);
            }
            assert(pair_views(rev@).reverse() =~= input.subrange(done + 1, n as int));
        }
        done = done + 1;
    }
    assert(input.subrange(0, n as int) =~= input);
    out
}

/// Sort strings, keeping ties in order.
fn sort_strings(v: Vec<String>) -> (r: Vec<String>)
    ensures
        string_views(r@) == text::sort_by_key(string_views(v@), by_text()),
{
    let mut out: Vec<String> = Vec::new();
    let mut v = v;
    let ghost input = string_views(v@);
    let mut rev: Vec<String> = Vec::new();
    while v.len() > 0
        invariant
            string_views(v@) + string_views(rev@).reverse() == input,
        decreases v.len(),
    {
        let x = v.pop().unwrap();
        rev.push(x);
        proof {
            assert(string_views(v@) + string_views(rev@).reverse() =~= input);
        }
    }
    assert(string_views(rev@).reverse() =~= input);
    let mut done: usize = 0;
    let n = rev.len();
    proof {
        assert(input.subrange(0, 0) =~= Seq::<Seq<char>>::empty());
    }
    while rev.len() > 0
        invariant
            n == input.len(),
            rev.len() + done == n,
            string_views(rev@).reverse() == input.subrange(done as int, n as int),
            string_views(out@) == text::sort_by_key(input.subrange(0, done as int), by_text()),
            out.len() == done,
        decreases rev.len(),
    {
        let ghost r0 = string_views(rev@);
        proof {
            assert(r0.reverse()[0] == r0[r0.len() - 1]);
            assert(input.subrange(done as int, n as int)[0] == input[done as int]);
        }
        let x = rev.pop().unwrap();
        let ghost xv = x@;
        proof {
            assert(xv == input[done as int]);
            text::lemma_insert_pos_bounds(string_views(out@), xv, by_text());
        }
        let xs = chars_of(x.as_str());
        let mut j: usize = 0;
        let mut stop = false;
        while j < out.len() && !stop
            invariant
                j <= out.len(),
                xs@ == xv,
                forall|k: int| 0 <= k < j ==> !text::seq_lt(xv, #[trigger] string_views(out@)[k]),
                stop ==> j < out.len() && text::seq_lt(xv, string_views(out@)[j as int]),
            decreases out.len() - j + if stop { 0int } else { 1int },
        {
            let other = chars_of(out[j].as_str());
            assert(string_views(out@)[j as int] == out@[j as int]@);
            if vec_lt(&xs, &other) {
                stop = true;
            } else {
                j = j + 1;
            }
        }
        proof {
            assert forall|k: int| 0 <= k < j implies !text::seq_lt(by_text()(xv), by_text()(#[trigger] string_views(out@)[k])) by {}
            if j < out.len() {
                assert(text::seq_lt(by_text()(xv), by_text()(string_views(out@)[j as int])));
            }
            text::lemma_insert_pos_scan(string_views(out@), xv, by_text(), j as int);
            let pre = input.subrange(0, done + 1);
            assert(pre.drop_last() =~= input.subrange(0, done as int));
            assert(pre.last() == xv);
        }
        let ghost out_before = string_views(out@);
        out.insert(j, x);
        proof {
            assert(string_views(out@) =~= out_before.insert(j as int, xv));
        }
        proof {
            assert(string_views(rev@) =~= r0.drop_last());
            assert forall|i: int| 0 <= i < n - done - 1 implies #[trigger] string_views(rev@).reverse()[i]
                == input.subrange(done + 1, n as int)[i] by {
                assert(r0.reverse()[i + 1] == input.subrange(done as int, n as int)[i + 1]);
            }
            assert(string_views(rev@).reverse() =~= input.subrange(done + 1, n as int));
        }
        done = done + 1;
    }
    assert(input.subrange(0, n as int) =~= input);
    out
}

/// Every bot in a scan of the config folder, sorted by name, and a sentence
/// about each JSON file that looked like a bot and was not usable, sorted.
pub fn list_configs_from(found: Vec<ScannedFile>) -> (r: (Vec<(String, String)>, Vec<String>))
    ensures
        pair_views(r.0@) == text::sort_by_key(
            usable_configs(found@),
            by_name(),
        ),
        string_views(r.1@) == text::sort_by_key(config_problems(found@), by_text()),
{
    let mut configs: Vec<(String, String)> = Vec::new();
    let mut problems: Vec<String> = Vec::new();
    let mut i: usize = 0;
    assert(found@.subrange(0, 0) =~= Seq::<ScannedFile>::empty());
    while i < found.len()
        invariant
            i <= found.len(),
            pair_views(configs@) == usable_configs(found@.subrange(0, i as int)),
            string_views(problems@) == config_problems(found@.subrange(0, i as int)),
        decreases found.len() - i,
    {
        let f = &found[i];
        let ghost pre = found@.subrange(0, i + 1);
        proof {
            assert(pre.drop_last() =~= found@.subrange(0, i as int));
            assert(pre.last() == found@[i as int]);
        }
        match config_file_stem(f.file_name.as_str()) {
            Some(stem) => match &f.problem {
                None => {
                    let ghost before = pair_views(configs@);
                    let path = string_from_str(f.path.as_str());
                    configs.push((stem, path));
                    proof {
                        assert(pair_views(configs@) =~= before.push((stem@, f.path@)));
                    }
                },
                Some(p) => {
                    let ghost before = string_views(problems@);
                    let mut line = chars_of(f.file_name.as_str());
                    line.push(' ');
                    append_str(&mut line, p.as_str());
                    assert(line@ =~= f.file_name@ + seq![' '] + p@);
                    let s = string_of(&line);
                    problems.push(s);
                    proof {
                        assert(string_views(problems@) =~= before.push(
                            f.file_name@ + seq![' '] + p@,
                        ));
                    }
                },
            },
            None => {},
        }
        i = i + 1;
    }
    assert(found@.subrange(0, found.len() as int) =~= found@);
    (sort_pairs_by_name(configs), sort_strings(problems))
}

/// Whether a config file needs rewriting to carry every current key: its
/// text differs from the config written out afresh, surrounding whitespace
/// aside.
pub fn needs_top_up(current: &str, canonical: &str) -> (r: bool)
    ensures
        r == (text::trim(current@) != text::trim(canonical@)),
{
    let a = trim_str(current);
    let b = trim_str(canonical);
    !vec_eq(&a, &b)
}

/// The bots are listed in name order and the problems in text order, so
/// every command shows them the same way whatever order the folder reads in;
/// the ordering drops and repeats nothing.
pub proof fn lemma_listing_is_ordered(found: Seq<ScannedFile>)
    ensures
        text::sort_by_key(usable_configs(found), by_name()).to_multiset() == usable_configs(
            found,
        ).to_multiset(),
        text::sort_by_key(config_problems(found), by_text()).to_multiset() == config_problems(
            found,
        ).to_multiset(),
        ({
            let listed = text::sort_by_key(usable_configs(found), by_name());
            forall|i: int, j: int|
                0 <= i < j < listed.len() ==> !text::seq_lt(
                    (#[trigger] listed[j]).0,
                    (#[trigger] listed[i]).0,
                )
        }),
        ({
            let problems = text::sort_by_key(config_problems(found), by_text());
            forall|i: int, j: int|
                0 <= i < j < problems.len() ==> !text::seq_lt(
                    #[trigger] problems[j],
                    #[trigger] problems[i],
                )
        }),
{
    text::lemma_sort_sorted(usable_configs(found), by_name());
    text::lemma_sort_sorted(config_problems(found), by_text());
    text::lemma_sort_permutes(usable_configs(found), by_name());
    text::lemma_sort_permutes(config_problems(found), by_text());
}

/// Process exit code for "config missing or unreadable" (sysexits EX_CONFIG).
/// The systemd unit lists it in `RestartPreventExitStatus`.
pub const EXIT_CONFIG_ERROR: i32 = 78;

} // verus!
