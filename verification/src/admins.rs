//! The admin username list as people type it: names separated by commas.

use vstd::prelude::*;

use crate::config;
use crate::text;
use crate::text::{append_seq, append_str, chars_of, split_on_vec, string_of, trim_vec};

verus! {

/// The pieces of a list joined with `sep` between neighbours: `[T]::join`.
pub open spec fn joined(v: Seq<Seq<char>>, sep: Seq<char>) -> Seq<char>
    decreases v.len(),
{
    if v.len() == 0 {
        seq![]
    } else if v.len() == 1 {
        v[0]
    } else {
        joined(v.drop_last(), sep) + sep + v.last()
    }
}

/// The separator the list is shown with.
pub open spec fn list_separator() -> Seq<char> {
    seq![',', ' ']
}

/// Each piece trimmed, the blank ones dropped.
pub open spec fn kept_names(pieces: Seq<Seq<char>>) -> Seq<Seq<char>>
    decreases pieces.len(),
{
    if pieces.len() == 0 {
        seq![]
    } else {
        let rest = kept_names(pieces.drop_last());
        let t = text::trim(pieces.last());
        if t.len() == 0 {
            rest
        } else {
            rest.push(t)
        }
    }
}

/// The usernames in a comma-separated list, each trimmed, empty ones dropped.
pub open spec fn admin_list(s: Seq<char>) -> Seq<Seq<char>> {
    kept_names(text::split_on(s, ','))
}

/// A name the list can carry unchanged: already trimmed, not empty, and
/// without the separator.
pub open spec fn listable_name(n: Seq<char>) -> bool {
    &&& n.len() > 0
    &&& text::trim(n) == n
    &&& !n.contains(',')
}

/// `index_of` for one character: the first position holding it, or -1.
pub(crate) proof fn lemma_index_of_char(s: Seq<char>, c: char, k: int)
    requires
        0 <= k <= s.len(),
        k < s.len() ==> s[k] == c,
        forall|j: int| 0 <= j < k ==> s[j] != c,
    ensures
        k < s.len() ==> text::index_of(s, c) == k,
        k == s.len() ==> text::index_of(s, c) == -1,
{
    let p = seq![c];
    assert forall|j: int| 0 <= j <= s.len() implies text::starts_with(
        #[trigger] s.subrange(j, s.len() as int),
        p,
    ) == (j < s.len() && s[j] == c) by {
        if j < s.len() {
            assert(s.subrange(j, s.len() as int).subrange(0, 1)[0] == s[j]);
            if s[j] == c {
                assert(s.subrange(j, s.len() as int).subrange(0, 1) =~= p);
            }
        }
    }
    if k < s.len() {
        text::lemma_find_at(s, p, k);
    } else {
        text::lemma_find_none(s, p);
    }
}

/// Where the first `c` in `x` is, read off `index_of`.
proof fn lemma_first_char(x: Seq<char>, c: char)
    ensures
        text::index_of(x, c) >= 0 ==> text::index_of(x, c) < x.len() && x[text::index_of(x, c)] == c,
        forall|j: int| 0 <= j < x.len() && (text::index_of(x, c) < 0 || j < text::index_of(x, c))
            ==> x[j] != c,
{
    let p = seq![c];
    text::lemma_find_facts(x, p);
    let k = text::index_of(x, c);
    if k >= 0 {
        assert(x.subrange(k, k + 1)[0] == x[k]);
    }
    assert forall|j: int| 0 <= j < x.len() && (k < 0 || j < k) implies x[j] != c by {
        if x[j] == c {
            assert(x.subrange(j, x.len() as int).subrange(0, 1) =~= p);
            assert(text::starts_with(x.subrange(j, x.len() as int), p));
        }
    }
}

/// Splitting at a separator placed between two texts splits each of them.
pub proof fn lemma_split_on_concat(x: Seq<char>, c: char, y: Seq<char>)
    ensures
        text::split_on(x + seq![c] + y, c) == text::split_on(x, c) + text::split_on(y, c),
    decreases x.len(),
{
    let w = x + seq![c] + y;
    lemma_first_char(x, c);
    let k = text::index_of(x, c);
    if k >= 0 {
        assert forall|j: int| 0 <= j < k implies w[j] != c by {
            assert(w[j] == x[j]);
        }
        lemma_index_of_char(w, c, k);
        let rest = x.subrange(k + 1, x.len() as int);
        assert(w.subrange(0, k) =~= x.subrange(0, k));
        assert(w.subrange(k + 1, w.len() as int) =~= rest + seq![c] + y);
        lemma_split_on_concat(rest, c, y);
        assert(text::split_on(x, c) == seq![x.subrange(0, k)] + text::split_on(rest, c));
        assert(text::split_on(w, c) == seq![x.subrange(0, k)] + (text::split_on(rest, c)
            + text::split_on(y, c)));
        assert(seq![x.subrange(0, k)] + (text::split_on(rest, c) + text::split_on(y, c)) =~= (
        seq![x.subrange(0, k)] + text::split_on(rest, c)) + text::split_on(y, c));
    } else {
        assert forall|j: int| 0 <= j < x.len() implies w[j] != c by {
            assert(w[j] == x[j]);
        }
        lemma_index_of_char(w, c, x.len() as int);
        assert(w.subrange(0, x.len() as int) =~= x);
        assert(w.subrange(x.len() + 1int, w.len() as int) =~= y);
        assert(text::split_on(x, c) == seq![x]);
    }
}

/// A text without the separator is one piece.
proof fn lemma_split_on_without(x: Seq<char>, c: char)
    requires
        !x.contains(c),
    ensures
        text::split_on(x, c) == seq![x],
{
    lemma_first_char(x, c);
    if text::index_of(x, c) >= 0 {
        assert(x.contains(c));
    }
}

/// No piece of a split holds the separator.
proof fn lemma_split_pieces_lack(s: Seq<char>, c: char)
    ensures
        forall|i: int| 0 <= i < text::split_on(s, c).len() ==> !(#[trigger] text::split_on(s, c)[i]).contains(c),
    decreases s.len(),
{
    lemma_first_char(s, c);
    let k = text::index_of(s, c);
    let pieces = text::split_on(s, c);
    if k < 0 || k >= s.len() {
        assert(pieces == seq![s]);
        assert(!s.contains(c)) by {
            if s.contains(c) {
                let j = choose|j: int| 0 <= j < s.len() && s[j] == c;
            }
        }
    } else {
        let rest = s.subrange(k + 1, s.len() as int);
        lemma_split_pieces_lack(rest, c);
        let head = s.subrange(0, k);
        assert(pieces == seq![head] + text::split_on(rest, c));
        assert(!head.contains(c)) by {
            if head.contains(c) {
                let j = choose|j: int| 0 <= j < head.len() && head[j] == c;
                assert(s[j] == c);
            }
        }
        assert forall|i: int| 0 <= i < pieces.len() implies !(#[trigger] pieces[i]).contains(c) by {
            if i > 0 {
                assert(pieces[i] == text::split_on(rest, c)[i - 1]);
            }
        }
    }
}

/// The names kept from pieces without a comma are names the list carries
/// unchanged.
proof fn lemma_kept_names_listable(pieces: Seq<Seq<char>>)
    requires
        forall|i: int| 0 <= i < pieces.len() ==> !(#[trigger] pieces[i]).contains(','),
    ensures
        forall|i: int| 0 <= i < kept_names(pieces).len() ==> listable_name(#[trigger] kept_names(pieces)[i]),
    decreases pieces.len(),
{
    if pieces.len() > 0 {
        let front = pieces.drop_last();
        assert forall|i: int| 0 <= i < front.len() implies !(#[trigger] front[i]).contains(',') by {
            assert(front[i] == pieces[i]);
        }
        lemma_kept_names_listable(front);
        let last = pieces.last();
        let t = text::trim(last);
        assert(!last.contains(','));
        if t.len() > 0 {
            text::lemma_trim_idempotent(last);
            text::lemma_trim_sub(last);
            let (a, b) = choose|a: int, b: int| 0 <= a <= b <= last.len() && t == last.subrange(a, b);
            assert(!t.contains(',')) by {
                if t.contains(',') {
                    let j = choose|j: int| 0 <= j < t.len() && t[j] == ',';
                    assert(last[a + j] == ',');
                }
            }
            assert(listable_name(t));
        }
        let k = kept_names(pieces);
        let kf = kept_names(front);
        assert forall|i: int| 0 <= i < k.len() implies listable_name(#[trigger] k[i]) by {
            if i < kf.len() {
                assert(k[i] == kf[i]);
            } else {
                assert(k[i] == t);
            }
        }
    }
}

/// Every name read from a list is one the list carries unchanged: trimmed,
/// not empty, free of commas.
pub proof fn lemma_admin_list_listable(s: Seq<char>)
    ensures
        forall|i: int| 0 <= i < admin_list(s).len() ==> listable_name(#[trigger] admin_list(s)[i]),
{
    lemma_split_pieces_lack(s, ',');
    lemma_kept_names_listable(text::split_on(s, ','));
}

/// A leading space does not survive trimming.
proof fn lemma_trim_after_space(t: Seq<char>)
    ensures
        text::trim(seq![' '] + t) == text::trim(t),
{
    let s = seq![' '] + t;
    assert(text::is_ws(' '));
    assert(s.drop_first() =~= t);
}

/// Reading a list back gives the names it was written from, for names that
/// are already trimmed, non-empty and free of commas.
pub proof fn lemma_admin_list_round_trip(names: Seq<Seq<char>>)
    requires
        forall|i: int| 0 <= i < names.len() ==> listable_name(#[trigger] names[i]),
    ensures
        admin_list(joined(names, list_separator())) == names,
    decreases names.len(),
{
    let sep = list_separator();
    if names.len() == 0 {
        assert(!Seq::<char>::empty().contains(','));
        lemma_split_on_without(seq![], ',');
        let pieces = text::split_on(seq![], ',');
        assert(pieces.drop_last() =~= Seq::<Seq<char>>::empty());
        assert(kept_names(pieces.drop_last()) == Seq::<Seq<char>>::empty());
        assert(pieces.last() == Seq::<char>::empty());
        assert(text::trim_start(Seq::<char>::empty()) == Seq::<char>::empty());
        assert(text::trim(pieces.last()).len() == 0);
        assert(kept_names(pieces) =~= names);
    } else if names.len() == 1 {
        let n = names[0];
        assert(listable_name(n));
        lemma_split_on_without(n, ',');
        let pieces = text::split_on(n, ',');
        assert(pieces.drop_last() =~= Seq::<Seq<char>>::empty());
        assert(kept_names(pieces.drop_last()) == Seq::<Seq<char>>::empty());
        assert(pieces.last() == n);
        assert(kept_names(pieces) == Seq::<Seq<char>>::empty().push(n));
        assert(kept_names(pieces) =~= seq![n]);
        assert(names =~= seq![n]);
    } else {
        let front = names.drop_last();
        let n = names.last();
        assert(listable_name(names[names.len() - 1]));
        assert forall|i: int| 0 <= i < front.len() implies listable_name(#[trigger] front[i]) by {
            assert(front[i] == names[i]);
        }
        lemma_admin_list_round_trip(front);
        let jf = joined(front, sep);
        assert(joined(names, sep) == jf + sep + n);
        assert(jf + sep + n =~= jf + seq![','] + (seq![' '] + n));
        lemma_split_on_concat(jf, ',', seq![' '] + n);
        assert(!(seq![' '] + n).contains(',')) by {
            if (seq![' '] + n).contains(',') {
                let i = choose|i: int| 0 <= i < (seq![' '] + n).len() && (seq![' '] + n)[i] == ',';
                assert(n[i - 1] == ',');
            }
        }
        lemma_split_on_without(seq![' '] + n, ',');
        let pieces = text::split_on(jf + sep + n, ',');
        assert(pieces == text::split_on(jf, ',') + seq![seq![' '] + n]);
        assert(pieces.drop_last() =~= text::split_on(jf, ','));
        lemma_trim_after_space(n);
        assert(kept_names(pieces) == front.push(n));
        assert(front.push(n) =~= names);
    }
}

/// Read a comma-separated username list: each name trimmed, blank ones
/// dropped.
pub fn parse_admin_list(s: &str) -> (r: Vec<String>)
    ensures
        config::string_views(r@) == admin_list(s@),
{
    let v = chars_of(s);
    let pieces = split_on_vec(&v, ',');
    let ghost pv = text::views(pieces@);
    let mut out: Vec<String> = Vec::new();
    let mut i: usize = 0;
    while i < pieces.len()
        invariant
            i <= pieces.len(),
            pv == text::views(pieces@),
            pv == text::split_on(v@, ','),
            config::string_views(out@) == kept_names(pv.subrange(0, i as int)),
        decreases pieces.len() - i,
    {
        let t = trim_vec(&pieces[i]);
        let ghost before = config::string_views(out@);
        let ghost sub = pv.subrange(0, i as int + 1);
        proof {
            assert(sub.drop_last() =~= pv.subrange(0, i as int));
            assert(sub.last() == pieces@[i as int]@);
        }
        if t.len() > 0 {
            let name = string_of(&t);
            out.push(name);
            proof {
                assert(config::string_views(out@) =~= before.push(t@));
            }
        }
        i = i + 1;
    }
    proof {
        assert(pv.subrange(0, pieces.len() as int) =~= pv);
    }
    out
}

/// The list as the editor shows it: the names joined by `", "`.
pub fn join_admins(names: &[String]) -> (r: String)
    ensures
        r@ == joined(config::string_views(names@), list_separator()),
{
    let ghost nv = config::string_views(names@);
    let mut acc: Vec<char> = Vec::new();
    let mut i: usize = 0;
    proof {
        reveal_strlit(", ");
    }
    while i < names.len()
        invariant
            i <= names.len(),
            nv == config::string_views(names@),
            ", "@ == list_separator(),
            acc@ == joined(nv.subrange(0, i as int), list_separator()),
        decreases names.len() - i,
    {
        let ghost sub = nv.subrange(0, i as int + 1);
        proof {
            assert(sub.drop_last() =~= nv.subrange(0, i as int));
            assert(sub.last() == names@[i as int]@);
        }
        if i > 0 {
            append_str(&mut acc, ", ");
        }
        let piece = chars_of(names[i].as_str());
        append_seq(&mut acc, &piece);
        proof {
            if i == 0 {
                assert(acc@ =~= sub[0]);
            }
        }
        i = i + 1;
    }
    proof {
        assert(nv.subrange(0, names.len() as int) =~= nv);
    }
    string_of(&acc)
}

} // verus!
