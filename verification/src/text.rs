//! Text as sequences of characters: the model every contract in this crate
//! is written in, and the executable helpers that work on it.
//!
//! Strings are read into `Vec<char>` once, worked on there, and turned back
//! into a `String` at the end. Each helper states its result over `Seq<char>`
//! so callers can reason about what came out without looking inside.

use vstd::prelude::*;

verus! {

// ---------------------------------------------------------------------------
// Characters
// ---------------------------------------------------------------------------

/// `char::is_whitespace`: the Unicode `White_Space` property.
pub open spec fn is_ws(c: char) -> bool {
    let n = c as u32;
    ||| 0x09 <= n <= 0x0d
    ||| n == 0x20
    ||| n == 0x85
    ||| n == 0xa0
    ||| n == 0x1680
    ||| 0x2000 <= n <= 0x200a
    ||| n == 0x2028
    ||| n == 0x2029
    ||| n == 0x202f
    ||| n == 0x205f
    ||| n == 0x3000
}

/// `char::is_control`: general category `Cc`.
pub open spec fn is_control(c: char) -> bool {
    let n = c as u32;
    n <= 0x1f || (0x7f <= n <= 0x9f)
}

pub open spec fn is_ascii_digit(c: char) -> bool {
    '0' <= c <= '9'
}

pub open spec fn is_ascii_upper(c: char) -> bool {
    'A' <= c <= 'Z'
}

pub open spec fn is_ascii_alnum(c: char) -> bool {
    ||| is_ascii_digit(c)
    ||| is_ascii_upper(c)
    ||| ('a' <= c <= 'z')
}

/// `char::to_ascii_lowercase`.
pub open spec fn ascii_lower_char(c: char) -> char {
    if is_ascii_upper(c) {
        ((c as u32) + 32) as char
    } else {
        c
    }
}

pub open spec fn ascii_lower(s: Seq<char>) -> Seq<char> {
    s.map_values(|c: char| ascii_lower_char(c))
}

/// ASCII lowercasing changes letters only, never whether a character is
/// whitespace.
pub proof fn lemma_ascii_lower_char_ws(c: char)
    ensures
        is_ws(ascii_lower_char(c)) == is_ws(c),
        ascii_lower_char(ascii_lower_char(c)) == ascii_lower_char(c),
        (c as u32) < 128 ==> (ascii_lower_char(c) as u32) < 128,
{
}

/// Lowering an ASCII text leaves it ASCII, and lowering it again changes
/// nothing.
pub proof fn lemma_ascii_lower_settles(s: Seq<char>)
    ensures
        is_ascii_text(s) ==> is_ascii_text(ascii_lower(s)),
        ascii_lower(ascii_lower(s)) == ascii_lower(s),
{
    assert forall|i: int| 0 <= i < s.len() implies #[trigger] ascii_lower(ascii_lower(s))[i] == ascii_lower(s)[i] by {
        lemma_ascii_lower_char_ws(s[i]);
    }
    assert(ascii_lower(ascii_lower(s)) =~= ascii_lower(s));
    if is_ascii_text(s) {
        assert forall|i: int| 0 <= i < ascii_lower(s).len() implies (#[trigger] ascii_lower(s)[i] as u32) < 128 by {
            lemma_ascii_lower_char_ws(s[i]);
        }
    }
}

/// `str::eq_ignore_ascii_case`.
pub open spec fn eq_ignore_ascii_case(a: Seq<char>, b: Seq<char>) -> bool {
    ascii_lower(a) == ascii_lower(b)
}

pub fn is_ws_exec(c: char) -> (r: bool)
    ensures
        r == is_ws(c),
{
    let n = c as u32;
    (0x09 <= n && n <= 0x0d) || n == 0x20 || n == 0x85 || n == 0xa0 || n == 0x1680 || (0x2000
        <= n && n <= 0x200a) || n == 0x2028 || n == 0x2029 || n == 0x202f || n == 0x205f || n
        == 0x3000
}

pub fn is_control_exec(c: char) -> (r: bool)
    ensures
        r == is_control(c),
{
    let n = c as u32;
    n <= 0x1f || (0x7f <= n && n <= 0x9f)
}

pub fn ascii_lower_char_exec(c: char) -> (r: char)
    ensures
        r == ascii_lower_char(c),
{
    if 'A' <= c && c <= 'Z' {
        let n = (c as u8) + 32;
        assert(n as char == ((c as u32) + 32) as char);
        n as char
    } else {
        c
    }
}

// ---------------------------------------------------------------------------
// Conversions between `str` and `Vec<char>`
// ---------------------------------------------------------------------------

/// The characters of `s`, in order.
pub fn chars_of(s: &str) -> (v: Vec<char>)
    ensures
        v@ == s@,
{
    let n = s.unicode_len();
    let mut v: Vec<char> = Vec::new();
    let mut i: usize = 0;
    while i < n
        invariant
            n == s@.len(),
            i <= n,
            v@ == s@.subrange(0, i as int),
        decreases n - i,
    {
        let c = s.get_char(i);
        v.push(c);
        i = i + 1;
        assert(v@ =~= s@.subrange(0, i as int));
    }
    assert(v@ =~= s@);
    v
}

/// `String::push`: appends one character.
#[verifier::external_body]
fn push_char(s: &mut String, c: char)
    ensures
        final(s)@ == old(s)@.push(c),
{
    s.push(c);
}

/// A `String` holding exactly the characters of `v`.
pub fn string_of(v: &Vec<char>) -> (s: String)
    ensures
        s@ == v@,
{
    let mut s = String::new();
    let mut i: usize = 0;
    while i < v.len()
        invariant
            i <= v.len(),
            s@ == v@.subrange(0, i as int),
        decreases v.len() - i,
    {
        push_char(&mut s, v[i]);
        i = i + 1;
        assert(s@ =~= v@.subrange(0, i as int));
    }
    assert(v@.subrange(0, v.len() as int) =~= v@);
    s
}

/// A `String` holding the characters of `s` (a copy).
pub fn string_from_str(s: &str) -> (r: String)
    ensures
        r@ == s@,
{
    let v = chars_of(s);
    string_of(&v)
}

/// Append the characters of `t` to `v`.
pub fn append_seq(v: &mut Vec<char>, t: &Vec<char>)
    ensures
        final(v)@ == old(v)@ + t@,
{
    let mut i: usize = 0;
    let ghost start = v@;
    while i < t.len()
        invariant
            i <= t.len(),
            v@ == start + t@.subrange(0, i as int),
        decreases t.len() - i,
    {
        v.push(t[i]);
        i = i + 1;
        assert(v@ =~= start + t@.subrange(0, i as int));
    }
    assert(t@.subrange(0, t.len() as int) =~= t@);
}

/// Append the characters of `t` to `v`.
pub fn append_str(v: &mut Vec<char>, t: &str)
    ensures
        final(v)@ == old(v)@ + t@,
{
    let tv = chars_of(t);
    append_seq(v, &tv);
}

/// The characters `v[from..to]` as a new vector.
pub fn slice_vec(v: &Vec<char>, from: usize, to: usize) -> (r: Vec<char>)
    requires
        from <= to <= v.len(),
    ensures
        r@ == v@.subrange(from as int, to as int),
{
    let mut r: Vec<char> = Vec::new();
    let mut i = from;
    while i < to
        invariant
            from <= i <= to <= v.len(),
            r@ == v@.subrange(from as int, i as int),
        decreases to - i,
    {
        r.push(v[i]);
        i = i + 1;
        assert(r@ =~= v@.subrange(from as int, i as int));
    }
    r
}

// ---------------------------------------------------------------------------
// Trimming
// ---------------------------------------------------------------------------

/// `str::trim_start`.
pub open spec fn trim_start(s: Seq<char>) -> Seq<char>
    decreases s.len(),
{
    if s.len() > 0 && is_ws(s[0]) {
        trim_start(s.drop_first())
    } else {
        s
    }
}

/// `str::trim_end`.
pub open spec fn trim_end(s: Seq<char>) -> Seq<char>
    decreases s.len(),
{
    if s.len() > 0 && is_ws(s.last()) {
        trim_end(s.drop_last())
    } else {
        s
    }
}

/// `str::trim`.
pub open spec fn trim(s: Seq<char>) -> Seq<char> {
    trim_end(trim_start(s))
}

/// Nothing but whitespace (or nothing at all): what `trim().is_empty()` tests.
pub open spec fn is_blank(s: Seq<char>) -> bool {
    forall|i: int| 0 <= i < s.len() ==> is_ws(#[trigger] s[i])
}

pub proof fn lemma_trim_start_skip(s: Seq<char>, i: int)
    requires
        0 <= i <= s.len(),
        forall|k: int| 0 <= k < i ==> is_ws(#[trigger] s[k]),
    ensures
        trim_start(s) == trim_start(s.subrange(i, s.len() as int)),
    decreases i,
{
    if i > 0 {
        assert(s.drop_first().subrange(i - 1, s.drop_first().len() as int) =~= s.subrange(
            i,
            s.len() as int,
        ));
        lemma_trim_start_skip(s.drop_first(), i - 1);
    } else {
        assert(s.subrange(0, s.len() as int) =~= s);
    }
}

pub proof fn lemma_trim_end_skip(s: Seq<char>, j: int)
    requires
        0 <= j <= s.len(),
        forall|k: int| j <= k < s.len() ==> is_ws(#[trigger] s[k]),
    ensures
        trim_end(s) == trim_end(s.subrange(0, j)),
    decreases s.len() - j,
{
    if j < s.len() {
        assert(s.drop_last().subrange(0, j) =~= s.subrange(0, j));
        lemma_trim_end_skip(s.drop_last(), j);
    } else {
        assert(s.subrange(0, j) =~= s);
    }
}

pub proof fn lemma_trim_start_all_ws(s: Seq<char>)
    requires
        is_blank(s),
    ensures
        trim_start(s).len() == 0,
    decreases s.len(),
{
    if s.len() > 0 {
        lemma_trim_start_all_ws(s.drop_first());
    }
}

/// `trim(s)` is empty exactly when `s` is blank.
pub proof fn lemma_trim_empty_iff_blank(s: Seq<char>)
    ensures
        (trim(s).len() == 0) <==> is_blank(s),
    decreases s.len(),
{
    if s.len() > 0 {
        if is_ws(s[0]) {
            lemma_trim_empty_iff_blank(s.drop_first());
            assert(trim_start(s) == trim_start(s.drop_first()));
            if is_blank(s.drop_first()) {
                assert forall|i: int| 0 <= i < s.len() implies is_ws(#[trigger] s[i]) by {
                    if i > 0 {
                        assert(s[i] == s.drop_first()[i - 1]);
                    }
                }
            }
            if is_blank(s) {
                assert forall|i: int| 0 <= i < s.drop_first().len() implies is_ws(
                    #[trigger] s.drop_first()[i],
                ) by {
                    assert(s.drop_first()[i] == s[i + 1]);
                }
            }
        } else {
            assert(trim_start(s) == s);
            lemma_trim_end_keeps_first(s);
            assert(!is_blank(s));
        }
    } else {
        assert(trim_start(s) == s);
    }
}

/// Trimming the end of a sequence that starts with a non-space keeps it non-empty.
pub proof fn lemma_trim_end_keeps_first(s: Seq<char>)
    requires
        s.len() > 0,
        !is_ws(s[0]),
    ensures
        trim_end(s).len() > 0,
        trim_end(s)[0] == s[0],
    decreases s.len(),
{
    if is_ws(s.last()) {
        assert(s.len() > 1);
        assert(s.drop_last()[0] == s[0]);
        lemma_trim_end_keeps_first(s.drop_last());
    }
}

/// `trim_start` drops a prefix.
pub proof fn lemma_trim_start_sub(s: Seq<char>)
    ensures
        exists|i: int| 0 <= i <= s.len() && trim_start(s) == s.subrange(i, s.len() as int),
    decreases s.len(),
{
    if s.len() > 0 && is_ws(s[0]) {
        lemma_trim_start_sub(s.drop_first());
        let i = choose|i: int|
            0 <= i <= s.drop_first().len() && trim_start(s.drop_first())
                == s.drop_first().subrange(i, s.drop_first().len() as int);
        assert(s.drop_first().subrange(i, s.drop_first().len() as int) =~= s.subrange(
            i + 1,
            s.len() as int,
        ));
    } else {
        assert(s.subrange(0, s.len() as int) =~= s);
    }
}

/// `trim_end` drops a suffix.
pub proof fn lemma_trim_end_sub(s: Seq<char>)
    ensures
        exists|j: int| 0 <= j <= s.len() && trim_end(s) == s.subrange(0, j),
    decreases s.len(),
{
    if s.len() > 0 && is_ws(s.last()) {
        lemma_trim_end_sub(s.drop_last());
        let j = choose|j: int|
            0 <= j <= s.drop_last().len() && trim_end(s.drop_last()) == s.drop_last().subrange(0, j);
        assert(s.drop_last().subrange(0, j) =~= s.subrange(0, j));
    } else {
        assert(s.subrange(0, s.len() as int) =~= s);
    }
}

/// The first character left by `trim_start` is not whitespace.
proof fn lemma_trim_start_first(s: Seq<char>)
    ensures
        trim_start(s).len() > 0 ==> !is_ws(trim_start(s)[0]),
    decreases s.len(),
{
    if s.len() > 0 && is_ws(s[0]) {
        lemma_trim_start_first(s.drop_first());
    }
}

/// The last character left by `trim_end` is not whitespace.
proof fn lemma_trim_end_last(s: Seq<char>)
    ensures
        trim_end(s).len() > 0 ==> !is_ws(trim_end(s).last()),
    decreases s.len(),
{
    if s.len() > 0 && is_ws(s.last()) {
        lemma_trim_end_last(s.drop_last());
    }
}

/// A trimmed text neither starts nor ends with whitespace.
pub proof fn lemma_trim_ends(s: Seq<char>)
    ensures
        trim(s).len() > 0 ==> !is_ws(trim(s)[0]) && !is_ws(trim(s).last()),
{
    let u = trim_start(s);
    lemma_trim_start_first(s);
    lemma_trim_end_last(u);
    if trim(s).len() > 0 {
        lemma_trim_end_sub(u);
        let j = choose|j: int| 0 <= j <= u.len() && trim_end(u) == u.subrange(0, j);
        assert(trim(s)[0] == u[0]);
    }
}

/// Trimming twice is trimming once.
pub proof fn lemma_trim_idempotent(s: Seq<char>)
    ensures
        trim(trim(s)) == trim(s),
{
    let t = trim(s);
    lemma_trim_ends(s);
    assert(trim_start(t) == t);
    assert(trim_end(t) == t);
}

/// Lowering a trimmed text leaves it trimmed.
proof fn lemma_trim_start_ascii_lower(s: Seq<char>)
    ensures
        trim_start(ascii_lower(s)) == ascii_lower(trim_start(s)),
    decreases s.len(),
{
    if s.len() > 0 {
        lemma_ascii_lower_char_ws(s[0]);
        assert(ascii_lower(s)[0] == ascii_lower_char(s[0]));
        if is_ws(s[0]) {
            assert(ascii_lower(s).drop_first() =~= ascii_lower(s.drop_first()));
            lemma_trim_start_ascii_lower(s.drop_first());
        }
    }
}

proof fn lemma_trim_end_ascii_lower(s: Seq<char>)
    ensures
        trim_end(ascii_lower(s)) == ascii_lower(trim_end(s)),
    decreases s.len(),
{
    if s.len() > 0 {
        lemma_ascii_lower_char_ws(s.last());
        assert(ascii_lower(s).last() == ascii_lower_char(s.last()));
        if is_ws(s.last()) {
            assert(ascii_lower(s).drop_last() =~= ascii_lower(s.drop_last()));
            lemma_trim_end_ascii_lower(s.drop_last());
        }
    }
}

/// Trimming and ASCII lowercasing can be done in either order.
pub proof fn lemma_trim_then_ascii_lower(s: Seq<char>)
    ensures
        trim(ascii_lower(s)) == ascii_lower(trim(s)),
{
    lemma_trim_start_ascii_lower(s);
    lemma_trim_end_ascii_lower(trim_start(s));
}

/// Trimming ASCII text leaves ASCII text.
pub proof fn lemma_trim_ascii_text(s: Seq<char>)
    requires
        is_ascii_text(s),
    ensures
        is_ascii_text(trim(s)),
{
    lemma_trim_sub(s);
    let (i, j) = choose|i: int, j: int| 0 <= i <= j <= s.len() && trim(s) == s.subrange(i, j);
    assert forall|k: int| 0 <= k < trim(s).len() implies (#[trigger] trim(s)[k] as u32) < 128 by {
        assert(trim(s)[k] == s[i + k]);
    }
}

pub proof fn lemma_trim_ascii_lower(s: Seq<char>)
    requires
        trim(s) == s,
    ensures
        trim(ascii_lower(s)) == ascii_lower(s),
{
    let l = ascii_lower(s);
    if s.len() > 0 {
        lemma_trim_ends(s);
        lemma_ascii_lower_char_ws(s[0]);
        lemma_ascii_lower_char_ws(s.last());
        assert(l[0] == ascii_lower_char(s[0]));
        assert(l.last() == ascii_lower_char(s.last()));
        assert(trim_start(l) == l);
        assert(trim_end(l) == l);
    } else {
        assert(trim_start(l) == l);
    }
}

/// Trimming keeps a text's characters in place: it is a piece of the text.
pub proof fn lemma_trim_sub(s: Seq<char>)
    ensures
        exists|i: int, j: int| 0 <= i <= j <= s.len() && trim(s) == s.subrange(i, j),
{
    lemma_trim_start_sub(s);
    let i = choose|i: int| 0 <= i <= s.len() && trim_start(s) == s.subrange(i, s.len() as int);
    let u = trim_start(s);
    lemma_trim_end_sub(u);
    let j = choose|j: int| 0 <= j <= u.len() && trim_end(u) == u.subrange(0, j);
    assert(u.subrange(0, j) =~= s.subrange(i, i + j));
}

/// The bounds `(i, j)` such that `v[i..j]` is `v` trimmed.
pub fn trim_bounds(v: &Vec<char>) -> (r: (usize, usize))
    ensures
        r.0 <= r.1 <= v.len(),
        v@.subrange(r.0 as int, r.1 as int) == trim(v@),
{
    let mut i: usize = 0;
    while i < v.len() && is_ws_exec(v[i])
        invariant
            i <= v.len(),
            forall|k: int| 0 <= k < i ==> is_ws(#[trigger] v@[k]),
        decreases v.len() - i,
    {
        i = i + 1;
    }
    let ghost rest = v@.subrange(i as int, v.len() as int);
    proof {
        lemma_trim_start_skip(v@, i as int);
        if i < v.len() {
            assert(rest[0] == v@[i as int]);
            assert(trim_start(rest) == rest);
        } else {
            assert(rest.len() == 0);
        }
    }
    let mut j: usize = v.len();
    while j > i && is_ws_exec(v[j - 1])
        invariant
            i <= j <= v.len(),
            forall|k: int| j <= k < v.len() ==> is_ws(#[trigger] v@[k]),
        decreases j,
    {
        j = j - 1;
    }
    proof {
        assert(trim_start(v@) == rest);
        lemma_trim_end_skip(rest, j - i);
        assert(rest.subrange(0, j - i) =~= v@.subrange(i as int, j as int));
        let t = v@.subrange(i as int, j as int);
        if t.len() > 0 {
            assert(t.last() == v@[j - 1]);
            assert(trim_end(t) == t);
        }
    }
    (i, j)
}

/// `s.trim()`, as characters.
pub fn trim_vec(v: &Vec<char>) -> (r: Vec<char>)
    ensures
        r@ == trim(v@),
{
    let (i, j) = trim_bounds(v);
    slice_vec(v, i, j)
}

/// `s.trim()`.
pub fn trim_str(s: &str) -> (r: Vec<char>)
    ensures
        r@ == trim(s@),
{
    let v = chars_of(s);
    trim_vec(&v)
}

/// `s.trim().is_empty()`.
pub fn is_blank_vec(v: &Vec<char>) -> (r: bool)
    ensures
        r == is_blank(v@),
{
    let mut i: usize = 0;
    while i < v.len()
        invariant
            i <= v.len(),
            forall|k: int| 0 <= k < i ==> is_ws(#[trigger] v@[k]),
        decreases v.len() - i,
    {
        if !is_ws_exec(v[i]) {
            return false;
        }
        i = i + 1;
    }
    true
}

// ---------------------------------------------------------------------------
// Comparison
// ---------------------------------------------------------------------------

/// `a == b` for character vectors.
pub fn vec_eq(a: &Vec<char>, b: &Vec<char>) -> (r: bool)
    ensures
        r == (a@ == b@),
{
    if a.len() != b.len() {
        return false;
    }
    let mut i: usize = 0;
    while i < a.len()
        invariant
            i <= a.len() == b.len(),
            forall|k: int| 0 <= k < i ==> a@[k] == b@[k],
        decreases a.len() - i,
    {
        if a[i] != b[i] {
            return false;
        }
        i = i + 1;
    }
    assert(a@ =~= b@);
    true
}

/// `a == b` where `b` is a string.
pub fn vec_eq_str(a: &Vec<char>, b: &str) -> (r: bool)
    ensures
        r == (a@ == b@),
{
    let bv = chars_of(b);
    vec_eq(a, &bv)
}

/// `a.eq_ignore_ascii_case(b)`.
pub fn eq_ignore_ascii_case_vec(a: &Vec<char>, b: &Vec<char>) -> (r: bool)
    ensures
        r == eq_ignore_ascii_case(a@, b@),
{
    if a.len() != b.len() {
        proof {
            assert(ascii_lower(a@).len() != ascii_lower(b@).len());
        }
        return false;
    }
    let mut i: usize = 0;
    while i < a.len()
        invariant
            i <= a.len() == b.len(),
            forall|k: int| 0 <= k < i ==> ascii_lower_char(a@[k]) == ascii_lower_char(b@[k]),
        decreases a.len() - i,
    {
        if ascii_lower_char_exec(a[i]) != ascii_lower_char_exec(b[i]) {
            proof {
                assert(ascii_lower(a@)[i as int] != ascii_lower(b@)[i as int]);
            }
            return false;
        }
        i = i + 1;
    }
    assert(ascii_lower(a@) =~= ascii_lower(b@));
    true
}

/// `s.to_ascii_lowercase()`, as characters.
pub fn ascii_lower_vec(v: &Vec<char>) -> (r: Vec<char>)
    ensures
        r@ == ascii_lower(v@),
{
    let mut r: Vec<char> = Vec::new();
    let mut i: usize = 0;
    while i < v.len()
        invariant
            i <= v.len(),
            r@ == ascii_lower(v@.subrange(0, i as int)),
        decreases v.len() - i,
    {
        r.push(ascii_lower_char_exec(v[i]));
        i = i + 1;
        assert(r@ =~= ascii_lower(v@.subrange(0, i as int)));
    }
    assert(v@.subrange(0, v.len() as int) =~= v@);
    r
}

// ---------------------------------------------------------------------------
// Searching
// ---------------------------------------------------------------------------

/// `s.starts_with(p)`.
pub open spec fn starts_with(s: Seq<char>, p: Seq<char>) -> bool {
    p.len() <= s.len() && s.subrange(0, p.len() as int) == p
}

/// `s.ends_with(p)`.
pub open spec fn ends_with(s: Seq<char>, p: Seq<char>) -> bool {
    p.len() <= s.len() && s.subrange(s.len() - p.len(), s.len() as int) == p
}

/// Index of the first occurrence of `p` in `s`, or -1: `str::find`.
pub open spec fn find(s: Seq<char>, p: Seq<char>) -> int
    decreases s.len(),
{
    if starts_with(s, p) {
        0
    } else if s.len() == 0 {
        -1
    } else {
        let r = find(s.drop_first(), p);
        if r < 0 {
            -1
        } else {
            r + 1
        }
    }
}

/// Index of the first `c` in `s`, or -1.
pub open spec fn index_of(s: Seq<char>, c: char) -> int {
    find(s, seq![c])
}

pub proof fn lemma_find_facts(s: Seq<char>, p: Seq<char>)
    ensures
        -1 <= find(s, p) <= s.len(),
        find(s, p) >= 0 ==> find(s, p) + p.len() <= s.len() && s.subrange(
            find(s, p),
            find(s, p) + p.len(),
        ) == p,
        find(s, p) >= 0 ==> forall|k: int|
            0 <= k < find(s, p) ==> !starts_with(#[trigger] s.subrange(k, s.len() as int), p),
        find(s, p) < 0 ==> forall|k: int|
            0 <= k <= s.len() ==> !starts_with(#[trigger] s.subrange(k, s.len() as int), p),
    decreases s.len(),
{
    if starts_with(s, p) {
    } else if s.len() == 0 {
        assert forall|k: int| 0 <= k <= s.len() implies !starts_with(
            #[trigger] s.subrange(k, s.len() as int),
            p,
        ) by {
            assert(s.subrange(k, s.len() as int) =~= s);
        }
    } else {
        let t = s.drop_first();
        lemma_find_facts(t, p);
        let r = find(t, p);
        assert forall|k: int| 1 <= k <= s.len() implies #[trigger] s.subrange(k, s.len() as int)
            == t.subrange(k - 1, t.len() as int) by {
            assert(s.subrange(k, s.len() as int) =~= t.subrange(k - 1, t.len() as int));
        }
        assert(s.subrange(0, s.len() as int) =~= s);
        if r >= 0 {
            assert(s.subrange(r + 1, r + 1 + p.len()) =~= t.subrange(r, r + p.len()));
            assert forall|k: int| 0 <= k < r + 1 implies !starts_with(
                #[trigger] s.subrange(k, s.len() as int),
                p,
            ) by {
                if k >= 1 {
                    assert(s.subrange(k, s.len() as int) == t.subrange(k - 1, t.len() as int));
                }
            }
        } else {
            assert forall|k: int| 0 <= k <= s.len() implies !starts_with(
                #[trigger] s.subrange(k, s.len() as int),
                p,
            ) by {
                if k >= 1 {
                    assert(s.subrange(k, s.len() as int) == t.subrange(k - 1, t.len() as int));
                }
            }
        }
    }
}

/// `find` characterised by where it stops: `k` is the answer when `p` starts
/// there and nowhere earlier.
pub proof fn lemma_find_at(s: Seq<char>, p: Seq<char>, k: int)
    requires
        0 <= k <= s.len(),
        starts_with(s.subrange(k, s.len() as int), p),
        forall|j: int| 0 <= j < k ==> !starts_with(#[trigger] s.subrange(j, s.len() as int), p),
    ensures
        find(s, p) == k,
{
    lemma_find_facts(s, p);
    let f = find(s, p);
    if f < 0 {
        assert(!starts_with(s.subrange(k, s.len() as int), p));
    } else if f < k {
        assert(s.subrange(f, s.len() as int).subrange(0, p.len() as int) =~= s.subrange(
            f,
            f + p.len(),
        ));
        assert(starts_with(s.subrange(f, s.len() as int), p));
    } else if f > k {
        assert(s.subrange(k, s.len() as int).subrange(0, p.len() as int) =~= s.subrange(
            k,
            k + p.len(),
        ));
    }
}

/// `find` returns -1 when `p` starts nowhere.
pub proof fn lemma_find_none(s: Seq<char>, p: Seq<char>)
    requires
        forall|j: int| 0 <= j <= s.len() ==> !starts_with(#[trigger] s.subrange(j, s.len() as int), p),
    ensures
        find(s, p) == -1,
{
    lemma_find_facts(s, p);
    let f = find(s, p);
    if f >= 0 {
        assert(s.subrange(f, s.len() as int).subrange(0, p.len() as int) =~= s.subrange(
            f,
            f + p.len(),
        ));
        assert(starts_with(s.subrange(f, s.len() as int), p));
    }
}

/// Whether `p` occurs in `v` at position `at`.
pub fn matches_at(v: &Vec<char>, at: usize, p: &Vec<char>) -> (r: bool)
    requires
        at <= v.len(),
    ensures
        r == starts_with(v@.subrange(at as int, v.len() as int), p@),
{
    if p.len() > v.len() - at {
        return false;
    }
    let mut i: usize = 0;
    while i < p.len()
        invariant
            at + p.len() <= v.len(),
            i <= p.len(),
            forall|k: int| 0 <= k < i ==> v@[at + k] == p@[k],
        decreases p.len() - i,
    {
        if v[at + i] != p[i] {
            proof {
                assert(v@.subrange(at as int, v.len() as int).subrange(0, p.len() as int)[i as int]
                    == v@[at + i]);
            }
            return false;
        }
        i = i + 1;
    }
    assert(v@.subrange(at as int, v.len() as int).subrange(0, p.len() as int) =~= p@);
    true
}

/// `s.starts_with(p)`.
pub fn starts_with_vec(v: &Vec<char>, p: &Vec<char>) -> (r: bool)
    ensures
        r == starts_with(v@, p@),
{
    let r = matches_at(v, 0, p);
    assert(v@.subrange(0, v.len() as int) =~= v@);
    r
}

/// `s.starts_with(p)` for a string pattern.
pub fn starts_with_str(v: &Vec<char>, p: &str) -> (r: bool)
    ensures
        r == starts_with(v@, p@),
{
    let pv = chars_of(p);
    starts_with_vec(v, &pv)
}

/// `s.ends_with(p)` for a string pattern.
pub fn ends_with_str(v: &Vec<char>, p: &str) -> (r: bool)
    ensures
        r == ends_with(v@, p@),
{
    let pv = chars_of(p);
    if pv.len() > v.len() {
        return false;
    }
    let r = matches_at(v, v.len() - pv.len(), &pv);
    proof {
        let t = v@.subrange(v.len() - pv.len(), v.len() as int);
        assert(t.subrange(0, pv.len() as int) =~= t);
    }
    r
}

/// `s.find(p)`.
pub fn find_vec(v: &Vec<char>, p: &Vec<char>) -> (r: Option<usize>)
    ensures
        match r {
            Some(k) => k == find(v@, p@),
            None => find(v@, p@) == -1,
        },
{
    let mut k: usize = 0;
    while k < v.len()
        invariant
            k <= v.len(),
            forall|j: int| 0 <= j < k ==> !starts_with(#[trigger] v@.subrange(j, v.len() as int), p@),
        decreases v.len() - k,
    {
        if matches_at(v, k, p) {
            proof {
                lemma_find_at(v@, p@, k as int);
            }
            return Some(k);
        }
        k = k + 1;
    }
    if matches_at(v, k, p) {
        proof {
            lemma_find_at(v@, p@, k as int);
        }
        return Some(k);
    }
    proof {
        lemma_find_none(v@, p@);
    }
    None
}

/// `s.find(p)` for a string pattern.
pub fn find_str(v: &Vec<char>, p: &str) -> (r: Option<usize>)
    ensures
        match r {
            Some(k) => k == find(v@, p@),
            None => find(v@, p@) == -1,
        },
{
    let pv = chars_of(p);
    find_vec(v, &pv)
}

// ---------------------------------------------------------------------------
// Lines
// ---------------------------------------------------------------------------

/// Drop one trailing carriage return.
pub open spec fn strip_cr(s: Seq<char>) -> Seq<char> {
    if s.len() > 0 && s.last() == '\r' {
        s.drop_last()
    } else {
        s
    }
}

/// `str::lines`: split at `\n`, drop a `\r` that ends a terminated line, and
/// yield nothing after a final line ending.
pub open spec fn lines(s: Seq<char>) -> Seq<Seq<char>>
    decreases s.len(),
{
    if s.len() == 0 {
        seq![]
    } else {
        let k = index_of(s, '\n');
        if k < 0 {
            seq![s]
        } else {
            if 0 <= k < s.len() {
                seq![strip_cr(s.subrange(0, k))] + lines(s.subrange(k + 1, s.len() as int))
            } else {
                seq![]
            }
        }
    }
}

/// An optional text as characters.
pub open spec fn opt_chars(o: Option<String>) -> Option<Seq<char>> {
    match o {
        Some(s) => Some(s@),
        None => None,
    }
}

/// The views of a vector of character vectors.
pub open spec fn views(v: Seq<Vec<char>>) -> Seq<Seq<char>> {
    v.map_values(|l: Vec<char>| l@)
}

/// `v.lines()`, each line as characters.
pub fn lines_vec(v: &Vec<char>) -> (r: Vec<Vec<char>>)
    ensures
        views(r@) == lines(v@),
{
    let mut out: Vec<Vec<char>> = Vec::new();
    let mut start: usize = 0;
    let nl: Vec<char> = vec!['\n'];
    assert(v@.subrange(0, v.len() as int) =~= v@);
    while start < v.len()
        invariant
            start <= v.len(),
            nl@ == seq!['\n'],
            lines(v@) == views(out@) + lines(v@.subrange(start as int, v.len() as int)),
        decreases v.len() - start,
    {
        let rest = slice_vec(v, start, v.len());
        let found = find_vec(&rest, &nl);
        proof {
            lemma_find_facts(rest@, nl@);
        }
        if found.is_none() {
            let ghost before = views(out@);
            let ghost rv = rest@;
            out.push(rest);
            proof {
                assert(lines(rv) == seq![rv]);
                assert(views(out@) =~= before.push(rv));
            }
            start = v.len();
            assert(v@.subrange(start as int, v.len() as int) =~= Seq::<char>::empty());
            assert(lines(Seq::<char>::empty()) == Seq::<Seq<char>>::empty());
            assert(views(out@) + Seq::<Seq<char>>::empty() =~= views(out@));
        } else {
            let k = found.unwrap();
            let mut line = slice_vec(&rest, 0, k);
            if line.len() > 0 && line[line.len() - 1] == '\r' {
                line.pop();
            }
            proof {
                assert(line@ == strip_cr(rest@.subrange(0, k as int)));
                assert(rest@.subrange(k + 1, rest.len() as int) =~= v@.subrange(
                    start + k + 1,
                    v.len() as int,
                ));
            }
            let ghost before = views(out@);
            let ghost lv = line@;
            out.push(line);
            start = start + k + 1;
            proof {
                assert(views(out@) =~= before.push(lv));
                assert(lines(rest@) == seq![lv] + lines(
                    v@.subrange(start as int, v.len() as int),
                ));
            }
        }
    }
    assert(v@.subrange(start as int, v.len() as int) =~= Seq::<char>::empty());
    assert(views(out@) + Seq::<Seq<char>>::empty() =~= views(out@));
    out
}

// ---------------------------------------------------------------------------
// Words, replacing, splitting
// ---------------------------------------------------------------------------

/// Length of the leading run of non-whitespace characters.
pub open spec fn word_len(t: Seq<char>) -> int
    decreases t.len(),
{
    if t.len() == 0 || is_ws(t[0]) {
        0
    } else {
        1 + word_len(t.drop_first())
    }
}

/// `s.split_whitespace().next()`.
pub open spec fn first_word(s: Seq<char>) -> Option<Seq<char>> {
    let t = trim_start(s);
    if t.len() == 0 {
        None
    } else {
        Some(t.subrange(0, word_len(t)))
    }
}

pub proof fn lemma_word_len(t: Seq<char>, i: int)
    requires
        0 <= i <= t.len(),
        forall|k: int| 0 <= k < i ==> !is_ws(#[trigger] t[k]),
        i == t.len() || is_ws(t[i]),
    ensures
        word_len(t) == i,
    decreases i,
{
    if i > 0 {
        assert forall|k: int| 0 <= k < i - 1 implies !is_ws(#[trigger] t.drop_first()[k]) by {
            assert(t.drop_first()[k] == t[k + 1]);
        }
        if i < t.len() {
            assert(t.drop_first()[i - 1] == t[i]);
        }
        lemma_word_len(t.drop_first(), i - 1);
    }
}

/// `s.split_whitespace().next()`, as characters.
pub fn first_word_vec(v: &Vec<char>) -> (r: Option<Vec<char>>)
    ensures
        match r {
            Some(w) => first_word(v@) == Some(w@),
            None => first_word(v@) is None,
        },
{
    let mut i: usize = 0;
    while i < v.len() && is_ws_exec(v[i])
        invariant
            i <= v.len(),
            forall|k: int| 0 <= k < i ==> is_ws(#[trigger] v@[k]),
        decreases v.len() - i,
    {
        i = i + 1;
    }
    proof {
        lemma_trim_start_skip(v@, i as int);
        let rest = v@.subrange(i as int, v.len() as int);
        if i < v.len() {
            assert(rest[0] == v@[i as int]);
        }
        assert(trim_start(rest) == rest);
    }
    if i == v.len() {
        return None;
    }
    let mut j = i;
    while j < v.len() && !is_ws_exec(v[j])
        invariant
            i <= j <= v.len(),
            forall|k: int| i <= k < j ==> !is_ws(#[trigger] v@[k]),
        decreases v.len() - j,
    {
        j = j + 1;
    }
    proof {
        let rest = v@.subrange(i as int, v.len() as int);
        assert forall|k: int| 0 <= k < j - i implies !is_ws(#[trigger] rest[k]) by {
            assert(rest[k] == v@[i + k]);
        }
        if j < v.len() {
            assert(rest[j - i] == v@[j as int]);
        }
        lemma_word_len(rest, j - i);
        assert(rest.subrange(0, j - i) =~= v@.subrange(i as int, j as int));
    }
    Some(slice_vec(v, i, j))
}

/// `s.replace(p, r)` for a non-empty pattern: every non-overlapping
/// occurrence, left to right.
pub open spec fn replace(s: Seq<char>, p: Seq<char>, r: Seq<char>) -> Seq<char>
    decreases s.len(),
{
    let k = find(s, p);
    if k < 0 || p.len() == 0 || k + p.len() > s.len() {
        s
    } else {
        s.subrange(0, k) + r + replace(s.subrange(k + p.len(), s.len() as int), p, r)
    }
}

/// `s.replace(p, r)`.
pub fn replace_vec(v: &Vec<char>, p: &Vec<char>, r: &Vec<char>) -> (out: Vec<char>)
    requires
        p.len() > 0,
    ensures
        out@ == replace(v@, p@, r@),
{
    let mut out: Vec<char> = Vec::new();
    let mut start: usize = 0;
    assert(v@.subrange(0, v.len() as int) =~= v@);
    while start < v.len()
        invariant
            p.len() > 0,
            start <= v.len(),
            replace(v@, p@, r@) == out@ + replace(v@.subrange(start as int, v.len() as int), p@, r@),
        decreases v.len() - start,
    {
        let rest = slice_vec(v, start, v.len());
        let found = find_vec(&rest, p);
        proof {
            lemma_find_facts(rest@, p@);
        }
        match found {
            None => {
                append_seq(&mut out, &rest);
                start = v.len();
                assert(v@.subrange(start as int, v.len() as int) =~= Seq::<char>::empty());
                assert(replace(Seq::<char>::empty(), p@, r@) == Seq::<char>::empty());
                assert(out@ + Seq::<char>::empty() =~= out@);
            },
            Some(k) => {
                let head = slice_vec(&rest, 0, k);
                let ghost before = out@;
                append_seq(&mut out, &head);
                append_seq(&mut out, r);
                proof {
                    assert(rest@.subrange(k + p.len(), rest.len() as int) =~= v@.subrange(
                        start + k + p.len(),
                        v.len() as int,
                    ));
                }
                start = start + k + p.len();
                proof {
                    assert(out@ =~= before + head@ + r@);
                    assert(before + (head@ + r@ + replace(
                        v@.subrange(start as int, v.len() as int),
                        p@,
                        r@,
                    )) =~= out@ + replace(v@.subrange(start as int, v.len() as int), p@, r@));
                }
            },
        }
    }
    proof {
        assert(v@.subrange(start as int, v.len() as int) =~= Seq::<char>::empty());
        let e = Seq::<char>::empty();
        lemma_find_facts(e, p@);
        assert(replace(e, p@, r@) == e);
        assert(out@ + e =~= out@);
    }
    out
}

/// `s.split_once(p)`.
pub open spec fn split_once(s: Seq<char>, p: Seq<char>) -> Option<(Seq<char>, Seq<char>)> {
    let k = find(s, p);
    if k < 0 || k + p.len() > s.len() {
        None
    } else {
        Some((s.subrange(0, k), s.subrange(k + p.len(), s.len() as int)))
    }
}

/// `s.split_once(p)`, as characters.
pub fn split_once_vec(v: &Vec<char>, p: &Vec<char>) -> (r: Option<(Vec<char>, Vec<char>)>)
    ensures
        match r {
            Some((a, b)) => split_once(v@, p@) == Some((a@, b@)),
            None => split_once(v@, p@) is None,
        },
{
    let found = find_vec(v, p);
    proof {
        lemma_find_facts(v@, p@);
    }
    match found {
        None => None,
        Some(k) => {
            assert(k + p.len() <= v.len());
            let a = slice_vec(v, 0, k);
            let b = slice_vec(v, k + p.len(), v.len());
            Some((a, b))
        },
    }
}

// ---------------------------------------------------------------------------
// Numbers
// ---------------------------------------------------------------------------

pub open spec fn digit_val(c: char) -> int {
    (c as int) - ('0' as int)
}

pub open spec fn all_digits(d: Seq<char>) -> bool {
    forall|i: int| 0 <= i < d.len() ==> is_ascii_digit(#[trigger] d[i])
}

/// The number a string of decimal digits spells.
pub open spec fn digits_value(d: Seq<char>) -> int
    decreases d.len(),
{
    if d.len() == 0 {
        0
    } else {
        digits_value(d.drop_last()) * 10 + digit_val(d.last())
    }
}

/// What `from_str` for an unsigned integer type reads: an optional `+`, then
/// digits.
pub open spec fn unsigned_digits(s: Seq<char>) -> Seq<char> {
    if s.len() > 0 && s[0] == '+' {
        s.drop_first()
    } else {
        s
    }
}

/// `<uN as FromStr>::from_str` for the unsigned type whose largest value is
/// `max`: `Some(n)` on success, `None` for any error.
pub open spec fn parse_unsigned(s: Seq<char>, max: int) -> Option<int> {
    let d = unsigned_digits(s);
    if d.len() > 0 && all_digits(d) && digits_value(d) <= max {
        Some(digits_value(d))
    } else {
        None
    }
}

pub proof fn lemma_digits_value_nonneg(d: Seq<char>)
    requires
        all_digits(d),
    ensures
        digits_value(d) >= 0,
    decreases d.len(),
{
    if d.len() > 0 {
        assert(all_digits(d.drop_last())) by {
            assert forall|i: int| 0 <= i < d.drop_last().len() implies is_ascii_digit(
                #[trigger] d.drop_last()[i],
            ) by {
                assert(d.drop_last()[i] == d[i]);
            }
        }
        lemma_digits_value_nonneg(d.drop_last());
        assert(is_ascii_digit(d[d.len() - 1]));
    }
}

/// A longer run of digits never spells a smaller number.
pub proof fn lemma_digits_value_mono(d: Seq<char>, j: int, k: int)
    requires
        all_digits(d),
        0 <= j <= k <= d.len(),
    ensures
        digits_value(d.subrange(0, j)) <= digits_value(d.subrange(0, k)),
    decreases k - j,
{
    if j < k {
        lemma_digits_value_mono(d, j, k - 1);
        let pk = d.subrange(0, k);
        assert(pk.drop_last() =~= d.subrange(0, k - 1));
        assert(all_digits(d.subrange(0, k - 1))) by {
            assert forall|i: int| 0 <= i < k - 1 implies is_ascii_digit(
                #[trigger] d.subrange(0, k - 1)[i],
            ) by {
                assert(d.subrange(0, k - 1)[i] == d[i]);
            }
        }
        lemma_digits_value_nonneg(d.subrange(0, k - 1));
        assert(is_ascii_digit(d[k - 1]));
        assert(pk.last() == d[k - 1]);
    }
}

/// `s.parse::<uN>()` for the unsigned type whose largest value is `max`.
pub fn parse_unsigned_vec(v: &Vec<char>, max: u64) -> (r: Option<u64>)
    ensures
        match r {
            Some(n) => parse_unsigned(v@, max as int) == Some(n as int),
            None => parse_unsigned(v@, max as int) is None,
        },
{
    let start: usize = if v.len() > 0 && v[0] == '+' {
        1
    } else {
        0
    };
    let ghost d = unsigned_digits(v@);
    assert(d =~= v@.subrange(start as int, v.len() as int));
    if start == v.len() {
        return None;
    }
    let mut acc: u64 = 0;
    let mut i = start;
    assert(d.subrange(0, 0) =~= Seq::<char>::empty());
    while i < v.len()
        invariant
            start <= i <= v.len(),
            d == v@.subrange(start as int, v.len() as int),
            d == unsigned_digits(v@),
            forall|k: int| 0 <= k < i - start ==> is_ascii_digit(#[trigger] d[k]),
            acc as int == digits_value(d.subrange(0, i - start)),
            acc <= max,
        decreases v.len() - i,
    {
        let c = v[i];
        assert(c == d[i - start]);
        if !('0' <= c && c <= '9') {
            proof {
                assert(!is_ascii_digit(d[i - start]));
                assert(!all_digits(d));
            }
            return None;
        }
        let dv = (c as u32 - '0' as u32) as u64;
        let ghost prefix = d.subrange(0, i - start + 1);
        proof {
            assert(prefix.drop_last() =~= d.subrange(0, i - start));
            assert(prefix.last() == c);
        }
        if dv > max || acc > (max - dv) / 10 {
            proof {
                assert(acc * 10 + dv > max) by (nonlinear_arith)
                    requires
                        dv > max || acc > (max - dv) / 10,
                        acc <= max,
                        dv <= 9,
                ;
                assert(digits_value(prefix) == digits_value(prefix.drop_last()) * 10 + digit_val(
                    prefix.last(),
                ));
                assert(digits_value(prefix) == acc * 10 + dv);
                if all_digits(d) {
                    lemma_digits_value_mono(d, i - start + 1, d.len() as int);
                    assert(d.subrange(0, d.len() as int) =~= d);
                    assert(digits_value(d) > max);
                }
            }
            return None;
        }
        proof {
            assert(acc * 10 + dv <= max) by (nonlinear_arith)
                requires
                    acc <= (max - dv) / 10,
                    dv <= max,
            ;
        }
        acc = acc * 10 + dv;
        i = i + 1;
        proof {
            assert(digits_value(prefix) == digits_value(prefix.drop_last()) * 10 + digit_val(
                prefix.last(),
            ));
        }
    }
    proof {
        assert(d.subrange(0, d.len() as int) =~= d);
        assert(all_digits(d));
    }
    Some(acc)
}

/// The decimal digit character for `d < 10`.
pub open spec fn digit_char(d: nat) -> char {
    ((d + 48) as u8) as char
}

/// How `Display` writes an unsigned integer.
pub open spec fn decimal(n: nat) -> Seq<char>
    decreases n,
{
    if n < 10 {
        seq![digit_char(n)]
    } else {
        decimal(n / 10).push(digit_char(n % 10))
    }
}

/// `n.to_string()`, as characters.
pub fn decimal_vec(n: u64) -> (r: Vec<char>)
    ensures
        r@ == decimal(n as nat),
    decreases n,
{
    let d = (n % 10) as u8;
    let c = (d + 48) as char;
    if n < 10 {
        vec![c]
    } else {
        let mut v = decimal_vec(n / 10);
        v.push(c);
        v
    }
}

// ---------------------------------------------------------------------------
// Trimming one character
// ---------------------------------------------------------------------------

/// `s.trim_start_matches(c)`.
pub open spec fn trim_char_start(s: Seq<char>, c: char) -> Seq<char>
    decreases s.len(),
{
    if s.len() > 0 && s[0] == c {
        trim_char_start(s.drop_first(), c)
    } else {
        s
    }
}

/// `s.trim_end_matches(c)`.
pub open spec fn trim_char_end(s: Seq<char>, c: char) -> Seq<char>
    decreases s.len(),
{
    if s.len() > 0 && s.last() == c {
        trim_char_end(s.drop_last(), c)
    } else {
        s
    }
}

/// `s.trim_matches(c)`.
pub open spec fn trim_char(s: Seq<char>, c: char) -> Seq<char> {
    trim_char_end(trim_char_start(s, c), c)
}

proof fn lemma_trim_char_start_skip(s: Seq<char>, c: char, i: int)
    requires
        0 <= i <= s.len(),
        forall|k: int| 0 <= k < i ==> #[trigger] s[k] == c,
    ensures
        trim_char_start(s, c) == trim_char_start(s.subrange(i, s.len() as int), c),
    decreases i,
{
    if i > 0 {
        assert(s.drop_first().subrange(i - 1, s.drop_first().len() as int) =~= s.subrange(
            i,
            s.len() as int,
        ));
        lemma_trim_char_start_skip(s.drop_first(), c, i - 1);
    } else {
        assert(s.subrange(0, s.len() as int) =~= s);
    }
}

proof fn lemma_trim_char_end_skip(s: Seq<char>, c: char, j: int)
    requires
        0 <= j <= s.len(),
        forall|k: int| j <= k < s.len() ==> #[trigger] s[k] == c,
    ensures
        trim_char_end(s, c) == trim_char_end(s.subrange(0, j), c),
    decreases s.len() - j,
{
    if j < s.len() {
        assert(s.drop_last().subrange(0, j) =~= s.subrange(0, j));
        lemma_trim_char_end_skip(s.drop_last(), c, j);
    } else {
        assert(s.subrange(0, j) =~= s);
    }
}

/// `s.trim_matches(c)`, as characters.
pub fn trim_char_vec(v: &Vec<char>, c: char) -> (r: Vec<char>)
    ensures
        r@ == trim_char(v@, c),
{
    let mut i: usize = 0;
    while i < v.len() && v[i] == c
        invariant
            i <= v.len(),
            forall|k: int| 0 <= k < i ==> #[trigger] v@[k] == c,
        decreases v.len() - i,
    {
        i = i + 1;
    }
    let ghost rest = v@.subrange(i as int, v.len() as int);
    proof {
        lemma_trim_char_start_skip(v@, c, i as int);
        if i < v.len() {
            assert(rest[0] == v@[i as int]);
        }
        assert(trim_char_start(rest, c) == rest);
    }
    let mut j: usize = v.len();
    while j > i && v[j - 1] == c
        invariant
            i <= j <= v.len(),
            forall|k: int| j <= k < v.len() ==> #[trigger] v@[k] == c,
        decreases j,
    {
        j = j - 1;
    }
    proof {
        lemma_trim_char_end_skip(rest, c, j - i);
        assert(rest.subrange(0, j - i) =~= v@.subrange(i as int, j as int));
        let t = v@.subrange(i as int, j as int);
        if t.len() > 0 {
            assert(t.last() == v@[j - 1]);
        }
        assert(trim_char_end(t, c) == t);
    }
    slice_vec(v, i, j)
}

// ---------------------------------------------------------------------------
// Ordering
// ---------------------------------------------------------------------------

/// The order `String` sorts in: lexicographic by character. UTF-8 preserves
/// code point order byte for byte, so this is the byte order `Ord` uses.
pub open spec fn seq_lt(a: Seq<char>, b: Seq<char>) -> bool
    decreases a.len(),
{
    if a.len() == 0 {
        b.len() > 0
    } else if b.len() == 0 {
        false
    } else if a[0] != b[0] {
        (a[0] as u32) < (b[0] as u32)
    } else {
        seq_lt(a.drop_first(), b.drop_first())
    }
}

/// `a < b` for character vectors.
pub fn vec_lt(a: &Vec<char>, b: &Vec<char>) -> (r: bool)
    ensures
        r == seq_lt(a@, b@),
{
    let mut i: usize = 0;
    assert(a@.subrange(0, a.len() as int) =~= a@);
    assert(b@.subrange(0, b.len() as int) =~= b@);
    while i < a.len() && i < b.len()
        invariant
            i <= a.len(),
            i <= b.len(),
            seq_lt(a@, b@) == seq_lt(a@.subrange(i as int, a.len() as int), b@.subrange(
                i as int,
                b.len() as int,
            )),
        decreases a.len() - i,
    {
        let ghost sa = a@.subrange(i as int, a.len() as int);
        let ghost sb = b@.subrange(i as int, b.len() as int);
        assert(sa[0] == a@[i as int]);
        assert(sb[0] == b@[i as int]);
        if a[i] != b[i] {
            return (a[i] as u32) < (b[i] as u32);
        }
        assert(sa.drop_first() =~= a@.subrange(i + 1, a.len() as int));
        assert(sb.drop_first() =~= b@.subrange(i + 1, b.len() as int));
        i = i + 1;
    }
    let ghost sa = a@.subrange(i as int, a.len() as int);
    let ghost sb = b@.subrange(i as int, b.len() as int);
    assert(sa.len() == 0 || sb.len() == 0);
    i >= a.len() && i < b.len()
}

/// Where a stable insertion sort puts `x` in the already-sorted `s`: after
/// every element whose key is not greater than `x`'s.
pub open spec fn insert_pos<T>(s: Seq<T>, x: T, key: spec_fn(T) -> Seq<char>) -> int
    decreases s.len(),
{
    if s.len() == 0 {
        0
    } else if seq_lt(key(x), key(s[0])) {
        0
    } else {
        1 + insert_pos(s.drop_first(), x, key)
    }
}

/// `s` sorted by `key`, ties kept in their original order: what a stable
/// sort (`sort`, `sort_by`) produces.
pub open spec fn sort_by_key<T>(s: Seq<T>, key: spec_fn(T) -> Seq<char>) -> Seq<T>
    decreases s.len(),
{
    if s.len() == 0 {
        s
    } else {
        let r = sort_by_key(s.drop_last(), key);
        r.insert(insert_pos(r, s.last(), key), s.last())
    }
}

pub proof fn lemma_insert_pos_bounds<T>(s: Seq<T>, x: T, key: spec_fn(T) -> Seq<char>)
    ensures
        0 <= insert_pos(s, x, key) <= s.len(),
    decreases s.len(),
{
    if s.len() > 0 && !seq_lt(key(x), key(s[0])) {
        lemma_insert_pos_bounds(s.drop_first(), x, key);
    }
}

pub proof fn lemma_sort_len<T>(s: Seq<T>, key: spec_fn(T) -> Seq<char>)
    ensures
        sort_by_key(s, key).len() == s.len(),
    decreases s.len(),
{
    if s.len() > 0 {
        lemma_sort_len(s.drop_last(), key);
        lemma_insert_pos_bounds(sort_by_key(s.drop_last(), key), s.last(), key);
    }
}

/// The position `insert_pos` finds, found by scanning.
pub proof fn lemma_insert_pos_scan<T>(s: Seq<T>, x: T, key: spec_fn(T) -> Seq<char>, j: int)
    requires
        0 <= j <= s.len(),
        forall|k: int| 0 <= k < j ==> !seq_lt(key(x), key(#[trigger] s[k])),
        j == s.len() || seq_lt(key(x), key(s[j])),
    ensures
        insert_pos(s, x, key) == j,
    decreases j,
{
    if j > 0 {
        assert forall|k: int| 0 <= k < j - 1 implies !seq_lt(key(x), key(#[trigger] s.drop_first()[k])) by {
            assert(s.drop_first()[k] == s[k + 1]);
        }
        if j < s.len() {
            assert(s.drop_first()[j - 1] == s[j]);
        }
        assert(!seq_lt(key(x), key(s[0])));
        lemma_insert_pos_scan(s.drop_first(), x, key, j - 1);
    }
}

/// `s` is in order by `key`: no element's key sorts before an earlier one's.
pub open spec fn sorted_by<T>(s: Seq<T>, key: spec_fn(T) -> Seq<char>) -> bool {
    forall|i: int, j: int| 0 <= i < j < s.len() ==> !seq_lt(key(#[trigger] s[j]), key(#[trigger] s[i]))
}

proof fn lemma_seq_lt_asym(a: Seq<char>, b: Seq<char>)
    ensures
        seq_lt(a, b) ==> !seq_lt(b, a),
    decreases a.len(),
{
    if a.len() > 0 && b.len() > 0 && a[0] == b[0] {
        lemma_seq_lt_asym(a.drop_first(), b.drop_first());
    }
}

proof fn lemma_seq_lt_trans(a: Seq<char>, b: Seq<char>, c: Seq<char>)
    ensures
        seq_lt(a, b) && seq_lt(b, c) ==> seq_lt(a, c),
    decreases a.len(),
{
    if a.len() > 0 && b.len() > 0 && c.len() > 0 && a[0] == b[0] && b[0] == c[0] {
        lemma_seq_lt_trans(a.drop_first(), b.drop_first(), c.drop_first());
    }
}

proof fn lemma_insert_pos_facts<T>(s: Seq<T>, x: T, key: spec_fn(T) -> Seq<char>)
    ensures
        forall|k: int| 0 <= k < insert_pos(s, x, key) ==> !seq_lt(key(x), key(#[trigger] s[k])),
        insert_pos(s, x, key) < s.len() ==> seq_lt(key(x), key(s[insert_pos(s, x, key)])),
    decreases s.len(),
{
    lemma_insert_pos_bounds(s, x, key);
    if s.len() > 0 && !seq_lt(key(x), key(s[0])) {
        let t = s.drop_first();
        lemma_insert_pos_facts(t, x, key);
        lemma_insert_pos_bounds(t, x, key);
        assert(insert_pos(s, x, key) == 1 + insert_pos(t, x, key));
        assert forall|k: int| 0 <= k < insert_pos(s, x, key) implies !seq_lt(key(x), key(#[trigger] s[k])) by {
            if k > 0 {
                assert(s[k] == t[k - 1]);
            }
        }
        if insert_pos(s, x, key) < s.len() {
            assert(s[insert_pos(s, x, key)] == t[insert_pos(t, x, key)]);
        }
    }
}

proof fn lemma_insert_keeps_sorted<T>(r: Seq<T>, x: T, key: spec_fn(T) -> Seq<char>)
    requires
        sorted_by(r, key),
    ensures
        sorted_by(r.insert(insert_pos(r, x, key), x), key),
{
    let p = insert_pos(r, x, key);
    lemma_insert_pos_bounds(r, x, key);
    lemma_insert_pos_facts(r, x, key);
    let q = r.insert(p, x);
    assert forall|i: int, j: int| 0 <= i < j < q.len() implies !seq_lt(key(#[trigger] q[j]), key(#[trigger] q[i])) by {
        if j < p {
            assert(q[i] == r[i] && q[j] == r[j]);
        } else if j == p {
            assert(q[i] == r[i] && q[j] == x);
        } else if i > p {
            assert(q[i] == r[i - 1] && q[j] == r[j - 1]);
        } else if i == p {
            assert(q[i] == x && q[j] == r[j - 1]);
            assert(seq_lt(key(x), key(r[p])));
            lemma_seq_lt_trans(key(r[j - 1]), key(x), key(r[p]));
            lemma_seq_lt_asym(key(r[j - 1]), key(r[j - 1]));
            if j - 1 > p {
                assert(!seq_lt(key(r[j - 1]), key(r[p])));
            }
        } else {
            assert(q[i] == r[i] && q[j] == r[j - 1]);
        }
    }
}

/// A stable sort keeps every element, as often as it occurs.
pub proof fn lemma_sort_permutes<T>(s: Seq<T>, key: spec_fn(T) -> Seq<char>)
    ensures
        sort_by_key(s, key).to_multiset() == s.to_multiset(),
    decreases s.len(),
{
    if s.len() > 0 {
        let front = s.drop_last();
        lemma_sort_permutes(front, key);
        let r = sort_by_key(front, key);
        lemma_insert_pos_bounds(r, s.last(), key);
        lemma_sort_len(front, key);
        vstd::seq_lib::to_multiset_insert(r, insert_pos(r, s.last(), key), s.last());
        vstd::seq_lib::to_multiset_build(front, s.last());
        assert(front.push(s.last()) =~= s);
    }
}

/// A stable sort's result is in order.
pub proof fn lemma_sort_sorted<T>(s: Seq<T>, key: spec_fn(T) -> Seq<char>)
    ensures
        sorted_by(sort_by_key(s, key), key),
    decreases s.len(),
{
    if s.len() > 0 {
        lemma_sort_sorted(s.drop_last(), key);
        lemma_insert_keeps_sorted(sort_by_key(s.drop_last(), key), s.last(), key);
    }
}

// ---------------------------------------------------------------------------
// Splitting at a character, and lowercase
// ---------------------------------------------------------------------------

/// `s.split(c)`: the pieces between occurrences of `c`, empty ones included.
pub open spec fn split_on(s: Seq<char>, c: char) -> Seq<Seq<char>>
    decreases s.len(),
{
    let k = index_of(s, c);
    if k < 0 || k >= s.len() {
        seq![s]
    } else {
        seq![s.subrange(0, k)] + split_on(s.subrange(k + 1, s.len() as int), c)
    }
}

/// `s.split(c)`, as character vectors.
pub fn split_on_vec(v: &Vec<char>, c: char) -> (r: Vec<Vec<char>>)
    ensures
        views(r@) == split_on(v@, c),
{
    let mut out: Vec<Vec<char>> = Vec::new();
    let mut start: usize = 0;
    let sep: Vec<char> = vec![c];
    assert(sep@ =~= seq![c]);
    assert(v@.subrange(0, v.len() as int) =~= v@);
    loop
        invariant
            start <= v.len(),
            sep@ == seq![c],
            split_on(v@, c) == views(out@) + split_on(v@.subrange(start as int, v.len() as int), c),
        decreases v.len() - start,
    {
        let rest = slice_vec(v, start, v.len());
        let found = find_vec(&rest, &sep);
        proof {
            lemma_find_facts(rest@, sep@);
        }
        match found {
            None => {
                let ghost before = views(out@);
                let ghost rv = rest@;
                out.push(rest);
                proof {
                    assert(views(out@) =~= before.push(rv));
                    assert(split_on(rv, c) == seq![rv]);
                    assert(before + seq![rv] =~= before.push(rv));
                }
                return out;
            },
            Some(k) => {
                let piece = slice_vec(&rest, 0, k);
                let ghost before = views(out@);
                let ghost pv = piece@;
                proof {
                    assert(rest@.subrange(k + 1, rest.len() as int) =~= v@.subrange(
                        start + k + 1,
                        v.len() as int,
                    ));
                }
                out.push(piece);
                start = start + k + 1;
                proof {
                    assert(views(out@) =~= before.push(pv));
                    assert(split_on(rest@, c) == seq![pv] + split_on(
                        v@.subrange(start as int, v.len() as int),
                        c,
                    ));
                    assert(before + (seq![pv] + split_on(v@.subrange(start as int, v.len() as int), c))
                        =~= before.push(pv) + split_on(v@.subrange(start as int, v.len() as int), c));
                }
            },
        }
    }
}

/// Only ASCII characters.
pub open spec fn is_ascii_text(s: Seq<char>) -> bool {
    forall|i: int| 0 <= i < s.len() ==> (#[trigger] s[i] as u32) < 128
}

/// What `str::to_lowercase` makes of a text that is not all ASCII: the
/// Unicode lowercase mapping, which takes the Unicode tables to state and is
/// named here instead.
pub uninterp spec fn unicode_lowercase(s: Seq<char>) -> Seq<char>;

/// `str::to_lowercase` as a function of its text: ASCII lowercasing on ASCII
/// text (its documentation points to it for that as well), the Unicode
/// mapping otherwise.
pub open spec fn lowercase(s: Seq<char>) -> Seq<char> {
    if is_ascii_text(s) {
        ascii_lower(s)
    } else {
        unicode_lowercase(s)
    }
}

/// `str::to_lowercase`. Its documentation has each character changed in
/// case, some of them expanding into several, so a text with characters in
/// it keeps some.
#[verifier::external_body]
pub(crate) fn to_lowercase(s: &str) -> (r: String)
    ensures
        is_ascii_text(s@) ==> r@ == ascii_lower(s@),
        !is_ascii_text(s@) ==> r@ == unicode_lowercase(s@),
        s@.len() > 0 ==> r@.len() > 0,
{
    s.to_lowercase()
}

/// Where some index below `n` satisfies `p`, a least one does.
pub proof fn lemma_least_index(p: spec_fn(int) -> bool, n: int)
    requires
        exists|i: int| 0 <= i < n && #[trigger] p(i),
    ensures
        exists|i: int| 0 <= i < n && #[trigger] p(i) && forall|j: int| 0 <= j < i ==> !#[trigger] p(j),
{
    let k = choose|i: int| 0 <= i < n && #[trigger] p(i);
    lemma_least_index_below(p, k);
}

proof fn lemma_least_index_below(p: spec_fn(int) -> bool, k: int)
    requires
        0 <= k,
        p(k),
    ensures
        exists|i: int| 0 <= i <= k && #[trigger] p(i) && forall|j: int| 0 <= j < i ==> !#[trigger] p(j),
    decreases k,
{
    if exists|j: int| 0 <= j < k && #[trigger] p(j) {
        let j = choose|j: int| 0 <= j < k && #[trigger] p(j);
        lemma_least_index_below(p, j);
    } else {
        assert(forall|j: int| 0 <= j < k ==> !#[trigger] p(j));
    }
}

} // verus!
