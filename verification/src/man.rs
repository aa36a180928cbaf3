//! The man page's own text: roff escaping, how an argument is labelled, the
//! section that spells out every command, and how the sections clap_mangen
//! renders are put together into one page.

use vstd::prelude::*;

use crate::admins;
use crate::text;
use crate::text::{append_seq, append_str, chars_of, lines_vec, replace_vec, slice_vec, starts_with_str, string_of};

verus! {

/// Backslashes and hyphens escaped: `\` becomes `\e` and `-` becomes `\-`.
pub open spec fn escape_chars(s: Seq<char>) -> Seq<char> {
    text::replace(text::replace(s, seq!['\\'], seq!['\\', 'e']), seq!['-'], seq!['\\', '-'])
}

/// A line that would read as a roff request (it opens with `.` or `'`)
/// guarded by a leading `\&`.
pub open spec fn guard_line(l: Seq<char>) -> Seq<char> {
    if l.len() > 0 && (l[0] == '.' || l[0] == '\'') {
        seq!['\\', '&'] + l
    } else {
        l
    }
}

/// Text made safe to drop into a roff document: escaped, each line
/// guarded, the lines joined by `\n`.
pub open spec fn roff(s: Seq<char>) -> Seq<char> {
    admins::joined(text::lines(escape_chars(s)).map_values(|l: Seq<char>| guard_line(l)), seq!['\n'])
}

/// Every hyphen is written `\-`: it follows a backslash.
pub open spec fn hyphens_escaped(o: Seq<char>) -> bool {
    forall|k: int| 0 <= k < o.len() && #[trigger] o[k] == '-' ==> k > 0 && o[k - 1] == '\\'
}

/// A line roff would read as a request rather than as words.
pub open spec fn reads_as_request(l: Seq<char>) -> bool {
    l.len() > 0 && (l[0] == '.' || l[0] == '\'')
}

proof fn lemma_replace_escapes_hyphens(t: Seq<char>)
    ensures
        hyphens_escaped(text::replace(t, seq!['-'], seq!['\\', '-'])),
    decreases t.len(),
{
    let p = seq!['-'];
    let r = seq!['\\', '-'];
    let k = text::find(t, p);
    text::lemma_find_facts(t, p);
    let o = text::replace(t, p, r);
    if k < 0 || k + 1 > t.len() {
        assert forall|j: int| 0 <= j < t.len() implies t[j] != '-' by {
            if t[j] == '-' {
                assert(t.subrange(j, t.len() as int).subrange(0, 1) =~= p);
                assert(text::starts_with(t.subrange(j, t.len() as int), p));
            }
        }
    } else {
        let rest = t.subrange(k + 1, t.len() as int);
        lemma_replace_escapes_hyphens(rest);
        let tail = text::replace(rest, p, r);
        assert(o == t.subrange(0, k) + r + tail);
        assert forall|j: int| 0 <= j < k implies t[j] != '-' by {
            if t[j] == '-' {
                assert(t.subrange(j, t.len() as int).subrange(0, 1) =~= p);
                assert(text::starts_with(t.subrange(j, t.len() as int), p));
            }
        }
        assert forall|j: int| 0 <= j < o.len() && #[trigger] o[j] == '-' implies j > 0 && o[j - 1] == '\\' by {
            if j < k {
                assert(o[j] == t[j]);
            } else if j == k {
                assert(o[j] == '\\');
            } else if j == k + 1 {
                assert(o[j - 1] == '\\');
            } else {
                let m = j - (k + 2);
                assert(o[j] == tail[m]);
                if m == 0 {
                    assert(tail[0] == '-');
                    assert(false);
                } else {
                    assert(o[j - 1] == tail[m - 1]);
                }
            }
        }
    }
}

/// Escaping leaves no hyphen to be rendered as a soft dash: every one comes
/// out as `\-`.
pub proof fn lemma_escaped_hyphens(s: Seq<char>)
    ensures
        hyphens_escaped(escape_chars(s)),
{
    lemma_replace_escapes_hyphens(text::replace(s, seq!['\\'], seq!['\\', 'e']));
}

/// No line of escaped text is read as a roff request: a line that opened
/// with `.` or `'` now opens with `\&`.
pub proof fn lemma_no_line_reads_as_request(s: Seq<char>)
    ensures
        forall|i: int|
            0 <= i < text::lines(escape_chars(s)).len() ==> !reads_as_request(
                #[trigger] guard_line(text::lines(escape_chars(s))[i]),
            ),
{
}

/// Text that is safe to drop into a roff document: a backslash starts an
/// escape, a hyphen renders as a soft dash unless escaped, and a line opening
/// with `.` or `'` is read as a request rather than words.
pub fn roff_escape(s: &str) -> (r: String)
    ensures
        r@ == roff(s@),
{
    let v = chars_of(s);
    let backslash: Vec<char> = vec!['\\'];
    let backslash_e: Vec<char> = vec!['\\', 'e'];
    let hyphen: Vec<char> = vec!['-'];
    let hyphen_e: Vec<char> = vec!['\\', '-'];
    proof {
        assert(backslash@ =~= seq!['\\']);
        assert(backslash_e@ =~= seq!['\\', 'e']);
        assert(hyphen@ =~= seq!['-']);
        assert(hyphen_e@ =~= seq!['\\', '-']);
    }
    let once = replace_vec(&v, &backslash, &backslash_e);
    let escaped = replace_vec(&once, &hyphen, &hyphen_e);
    let ls = lines_vec(&escaped);
    let ghost guarded = text::views(ls@).map_values(|l: Seq<char>| guard_line(l));
    let mut out: Vec<char> = Vec::new();
    let mut i: usize = 0;
    while i < ls.len()
        invariant
            i <= ls.len(),
            text::views(ls@) == text::lines(escape_chars(s@)),
            guarded == text::views(ls@).map_values(|l: Seq<char>| guard_line(l)),
            out@ == admins::joined(guarded.subrange(0, i as int), seq!['\n']),
        decreases ls.len() - i,
    {
        let ghost sub = guarded.subrange(0, i as int + 1);
        proof {
            assert(sub.drop_last() =~= guarded.subrange(0, i as int));
            assert(text::views(ls@)[i as int] == ls@[i as int]@);
            assert(sub.last() == guard_line(ls@[i as int]@));
        }
        if i > 0 {
            out.push('\n');
        }
        let line = &ls[i];
        if line.len() > 0 && (line[0] == '.' || line[0] == '\'') {
            out.push('\\');
            out.push('&');
        }
        append_seq(&mut out, line);
        proof {
            if i == 0 {
                assert(out@ =~= sub[0]);
            } else {
                assert(out@ =~= admins::joined(guarded.subrange(0, i as int), seq!['\n'])
                    + seq!['\n'] + sub.last());
            }
        }
        i = i + 1;
    }
    proof {
        assert(guarded.subrange(0, ls.len() as int) =~= guarded);
    }
    string_of(&out)
}

/// `<name>` for each value name, separated by spaces.
pub open spec fn value_list(names: Seq<Seq<char>>) -> Seq<char> {
    admins::joined(names.map_values(|n: Seq<char>| seq!['<'] + n + seq!['>']), seq![' '])
}

/// The flags an option is written with: `-c`, `--config`, or both.
pub open spec fn flag_list(short: Option<char>, long: Option<Seq<char>>) -> Seq<Seq<char>> {
    let s: Seq<Seq<char>> = match short {
        Some(c) => seq![seq!['-', c]],
        None => seq![],
    };
    match long {
        Some(l) => s.push(seq!['-', '-'] + l),
        None => s,
    }
}

/// How an argument is written in the man page: `-c, --config <PATH>` for an
/// option, `<NAME>` for a positional. Value names are shown only for an
/// argument that takes values; a positional without any is shown by its id.
pub open spec fn arg_label(
    short: Option<char>,
    long: Option<Seq<char>>,
    takes_values: bool,
    value_names: Option<Seq<Seq<char>>>,
    id: Seq<char>,
) -> Seq<char> {
    let values: Option<Seq<char>> = if takes_values {
        match value_names {
            Some(n) => Some(value_list(n)),
            None => None,
        }
    } else {
        None
    };
    let flags = flag_list(short, long);
    if flags.len() == 0 {
        match values {
            Some(v) => v,
            None => seq!['<'] + id + seq!['>'],
        }
    } else {
        match values {
            Some(v) => admins::joined(flags, seq![',', ' ']) + seq![' '] + v,
            None => admins::joined(flags, seq![',', ' ']),
        }
    }
}

fn joined_vec(pieces: &Vec<Vec<char>>, sep: &Vec<char>) -> (r: Vec<char>)
    ensures
        r@ == admins::joined(text::views(pieces@), sep@),
{
    let ghost pv = text::views(pieces@);
    let mut out: Vec<char> = Vec::new();
    let mut i: usize = 0;
    while i < pieces.len()
        invariant
            i <= pieces.len(),
            pv == text::views(pieces@),
            out@ == admins::joined(pv.subrange(0, i as int), sep@),
        decreases pieces.len() - i,
    {
        let ghost sub = pv.subrange(0, i as int + 1);
        proof {
            assert(sub.drop_last() =~= pv.subrange(0, i as int));
            assert(sub.last() == pieces@[i as int]@);
        }
        if i > 0 {
            append_seq(&mut out, sep);
        }
        append_seq(&mut out, &pieces[i]);
        proof {
            if i == 0 {
                assert(out@ =~= sub[0]);
            }
        }
        i = i + 1;
    }
    proof {
        assert(pv.subrange(0, pieces.len() as int) =~= pv);
    }
    out
}

/// How one argument is written in the man page: `-c, --config <PATH>` for an
/// option, `<NAME>` for a positional. A switch like `--purge` has a value
/// name but takes no value, so it is written without one.
pub fn man_arg_label(
    short: Option<char>,
    long: Option<&str>,
    takes_values: bool,
    value_names: Option<&[String]>,
    id: &str,
) -> (r: String)
    ensures
        r@ == arg_label(
            short,
            match long {
                Some(l) => Some(l@),
                None => None,
            },
            takes_values,
            match value_names {
                Some(n) => Some(crate::config::string_views(n@)),
                None => None,
            },
            id@,
        ),
{
    let values: Option<Vec<char>> = if takes_values {
        match value_names {
            Some(names) => {
                let ghost nv = crate::config::string_views(names@);
                let ghost wrapped = nv.map_values(|n: Seq<char>| seq!['<'] + n + seq!['>']);
                let mut pieces: Vec<Vec<char>> = Vec::new();
                let mut i: usize = 0;
                while i < names.len()
                    invariant
                        i <= names.len(),
                        nv == crate::config::string_views(names@),
                        wrapped == nv.map_values(|n: Seq<char>| seq!['<'] + n + seq!['>']),
                        text::views(pieces@) == wrapped.subrange(0, i as int),
                    decreases names.len() - i,
                {
                    let mut p: Vec<char> = Vec::new();
                    p.push('<');
                    append_str(&mut p, names[i].as_str());
                    p.push('>');
                    let ghost before = text::views(pieces@);
                    proof {
                        assert(nv[i as int] == names@[i as int]@);
                        assert(p@ =~= seq!['<'] + nv[i as int] + seq!['>']);
                    }
                    let ghost pv = p@;
                    pieces.push(p);
                    i = i + 1;
                    proof {
                        assert(text::views(pieces@) =~= before.push(pv));
                        assert(wrapped[i - 1] == seq!['<'] + nv[i - 1] + seq!['>']);
                        assert(wrapped.subrange(0, i as int) =~= wrapped.subrange(0, i - 1).push(
                            wrapped[i - 1],
                        ));
                    }
                }
                proof {
                    assert(wrapped.subrange(0, names.len() as int) =~= wrapped);
                }
                let sep: Vec<char> = vec![' '];
                proof {
                    assert(sep@ =~= seq![' ']);
                }
                Some(joined_vec(&pieces, &sep))
            },
            None => None,
        }
    } else {
        None
    };
    let ghost lv: Option<Seq<char>> = match long {
        Some(l) => Some(l@),
        None => None,
    };
    let mut flags: Vec<Vec<char>> = Vec::new();
    match short {
        Some(c) => {
            let f: Vec<char> = vec!['-', c];
            flags.push(f);
        },
        None => {},
    }
    let ghost after_short = text::views(flags@);
    match long {
        Some(l) => {
            let mut f: Vec<char> = vec!['-', '-'];
            append_str(&mut f, l);
            flags.push(f);
        },
        None => {},
    }
    proof {
        assert(text::views(flags@) =~= flag_list(short, lv));
    }
    let out: Vec<char> = if flags.len() == 0 {
        match values {
            Some(v) => v,
            None => {
                let mut o: Vec<char> = vec!['<'];
                append_str(&mut o, id);
                o.push('>');
                o
            },
        }
    } else {
        let sep: Vec<char> = vec![',', ' '];
        proof {
            assert(sep@ =~= seq![',', ' ']);
        }
        let mut o = joined_vec(&flags, &sep);
        match values {
            Some(v) => {
                o.push(' ');
                append_seq(&mut o, &v);
            },
            None => {},
        }
        o
    };
    string_of(&out)
}

/// One argument of a command, as the man page needs it.
#[derive(Debug, Clone, PartialEq, Eq)]
pub struct ManArg {
    pub short: Option<char>,
    pub long: Option<String>,
    /// Whether the argument takes values (a switch does not).
    pub takes_values: bool,
    pub value_names: Option<Vec<String>>,
    pub id: String,
    pub help: Option<String>,
    pub hidden: bool,
}

/// A command one level further down (`service install`).
#[derive(Debug, Clone, PartialEq, Eq)]
pub struct ManSubcommand {
    pub name: String,
    pub about: Option<String>,
    pub hidden: bool,
}

/// A command, with its arguments and the commands under it.
#[derive(Debug, Clone, PartialEq, Eq)]
pub struct ManCommand {
    pub name: String,
    pub about: Option<String>,
    pub hidden: bool,
    pub args: Vec<ManArg>,
    pub children: Vec<ManSubcommand>,
}

/// An optional description as a roff line, or nothing.
pub open spec fn opt_line(o: Option<String>) -> Seq<char> {
    match o {
        Some(s) => roff(s@) + "\n"@,
        None => seq![],
    }
}

/// The label of an argument.
pub open spec fn label_of(a: ManArg) -> Seq<char> {
    arg_label(
        a.short,
        crate::text::opt_chars(a.long),
        a.takes_values,
        match a.value_names {
            Some(v) => Some(crate::config::string_views(v@)),
            None => None,
        },
        a.id@,
    )
}

/// An argument's entry: its label in bold, then its help.
pub open spec fn arg_entry(a: ManArg) -> Seq<char> {
    ".TP\n"@ + "\\fB"@ + roff(label_of(a)) + "\\fR\n"@ + opt_line(a.help)
}

/// The entries of the arguments that are not hidden, in order.
pub open spec fn args_text(args: Seq<ManArg>) -> Seq<char>
    decreases args.len(),
{
    if args.len() == 0 {
        seq![]
    } else {
        args_text(args.drop_last()) + if args.last().hidden {
            seq![]
        } else {
            arg_entry(args.last())
        }
    }
}

/// A command further down: both names in bold, then its description.
pub open spec fn child_entry(parent: Seq<char>, c: ManSubcommand) -> Seq<char> {
    ".TP\n"@ + "\\fB"@ + roff(parent) + " "@ + roff(c.name@) + "\\fR\n"@ + opt_line(c.about)
}

/// The entries of the commands further down that are not hidden, in order.
pub open spec fn children_text(parent: Seq<char>, cs: Seq<ManSubcommand>) -> Seq<char>
    decreases cs.len(),
{
    if cs.len() == 0 {
        seq![]
    } else {
        children_text(parent, cs.drop_last()) + if cs.last().hidden {
            seq![]
        } else {
            child_entry(parent, cs.last())
        }
    }
}

/// A command's subsection: its name, description, arguments and the
/// commands under it.
pub open spec fn command_entry(c: ManCommand) -> Seq<char> {
    ".SS "@ + roff(c.name@) + "\n"@ + opt_line(c.about) + args_text(c.args@) + children_text(
        c.name@,
        c.children@,
    )
}

/// The subsections of the commands that are not hidden, in order.
pub open spec fn commands_text(cs: Seq<ManCommand>) -> Seq<char>
    decreases cs.len(),
{
    if cs.len() == 0 {
        seq![]
    } else {
        commands_text(cs.drop_last()) + if cs.last().hidden {
            seq![]
        } else {
            command_entry(cs.last())
        }
    }
}

/// The section spelling out every command, when any command is shown.
pub open spec fn commands_section_text(cs: Seq<ManCommand>) -> Option<Seq<char>> {
    if exists|i: int| 0 <= i < cs.len() && !(#[trigger] cs[i]).hidden {
        Some(".SH COMMANDS\n"@ + commands_text(cs))
    } else {
        None
    }
}

fn append_opt_line(out: &mut Vec<char>, o: &Option<String>)
    ensures
        final(out)@ == old(out)@ + opt_line(*o),
{
    match o {
        Some(s) => {
            let t = roff_escape(s.as_str());
            append_str(out, t.as_str());
            append_str(out, "\n");
        },
        None => {
            assert(old(out)@ + seq![] =~= old(out)@);
        },
    }
}

fn arg_entry_text(a: &ManArg) -> (r: Vec<char>)
    ensures
        r@ == arg_entry(*a),
{
    let long: Option<&str> = match &a.long {
        Some(l) => Some(l.as_str()),
        None => None,
    };
    let names: Option<&[String]> = match &a.value_names {
        Some(v) => Some(v.as_slice()),
        None => None,
    };
    let label = man_arg_label(a.short, long, a.takes_values, names, a.id.as_str());
    let mut out: Vec<char> = Vec::new();
    append_str(&mut out, ".TP\n");
    append_str(&mut out, "\\fB");
    let t = roff_escape(label.as_str());
    append_str(&mut out, t.as_str());
    append_str(&mut out, "\\fR\n");
    append_opt_line(&mut out, &a.help);
    proof {
        assert(out@ =~= arg_entry(*a));
    }
    out
}

fn child_entry_text(parent: &str, c: &ManSubcommand) -> (r: Vec<char>)
    ensures
        r@ == child_entry(parent@, *c),
{
    let mut out: Vec<char> = Vec::new();
    append_str(&mut out, ".TP\n");
    append_str(&mut out, "\\fB");
    let p = roff_escape(parent);
    append_str(&mut out, p.as_str());
    append_str(&mut out, " ");
    let n = roff_escape(c.name.as_str());
    append_str(&mut out, n.as_str());
    append_str(&mut out, "\\fR\n");
    append_opt_line(&mut out, &c.about);
    proof {
        assert(out@ =~= child_entry(parent@, *c));
    }
    out
}

fn command_entry_text(c: &ManCommand) -> (r: Vec<char>)
    ensures
        r@ == command_entry(*c),
{
    let mut out: Vec<char> = Vec::new();
    append_str(&mut out, ".SS ");
    let n = roff_escape(c.name.as_str());
    append_str(&mut out, n.as_str());
    append_str(&mut out, "\n");
    append_opt_line(&mut out, &c.about);
    let ghost head = out@;
    let mut i: usize = 0;
    while i < c.args.len()
        invariant
            i <= c.args.len(),
            out@ == head + args_text(c.args@.subrange(0, i as int)),
        decreases c.args.len() - i,
    {
        let ghost sub = c.args@.subrange(0, i as int + 1);
        proof {
            assert(sub.drop_last() =~= c.args@.subrange(0, i as int));
        }
        if !c.args[i].hidden {
            let e = arg_entry_text(&c.args[i]);
            append_seq(&mut out, &e);
        }
        proof {
            assert(out@ =~= head + args_text(sub));
        }
        i = i + 1;
    }
    proof {
        assert(c.args@.subrange(0, c.args.len() as int) =~= c.args@);
    }
    let ghost mid = out@;
    let mut j: usize = 0;
    while j < c.children.len()
        invariant
            j <= c.children.len(),
            out@ == mid + children_text(c.name@, c.children@.subrange(0, j as int)),
        decreases c.children.len() - j,
    {
        let ghost sub = c.children@.subrange(0, j as int + 1);
        proof {
            assert(sub.drop_last() =~= c.children@.subrange(0, j as int));
        }
        if !c.children[j].hidden {
            let e = child_entry_text(c.name.as_str(), &c.children[j]);
            append_seq(&mut out, &e);
        }
        proof {
            assert(out@ =~= mid + children_text(c.name@, sub));
        }
        j = j + 1;
    }
    proof {
        assert(c.children@.subrange(0, c.children.len() as int) =~= c.children@);
        assert(out@ =~= command_entry(*c));
    }
    out
}

/// The section that spells out every command that is not hidden, with its
/// arguments and the commands under it, in place of cross-references to
/// pages nothing generates; `None` when no command is shown.
pub fn commands_section(commands: &[ManCommand]) -> (r: Option<String>)
    ensures
        crate::text::opt_chars(r) == commands_section_text(commands@),
{
    let mut out: Vec<char> = Vec::new();
    append_str(&mut out, ".SH COMMANDS\n");
    let ghost head = out@;
    let mut any = false;
    let mut i: usize = 0;
    while i < commands.len()
        invariant
            i <= commands.len(),
            out@ == head + commands_text(commands@.subrange(0, i as int)),
            any == exists|k: int| 0 <= k < i && !(#[trigger] commands@[k]).hidden,
        decreases commands.len() - i,
    {
        let ghost sub = commands@.subrange(0, i as int + 1);
        proof {
            assert(sub.drop_last() =~= commands@.subrange(0, i as int));
        }
        if !commands[i].hidden {
            let e = command_entry_text(&commands[i]);
            append_seq(&mut out, &e);
            any = true;
        }
        proof {
            assert(out@ =~= head + commands_text(sub));
        }
        i = i + 1;
    }
    proof {
        assert(commands@.subrange(0, commands.len() as int) =~= commands@);
    }
    if any {
        Some(string_of(&out))
    } else {
        None
    }
}

/// The two lines every clap_mangen section renderer starts with, because
/// each is built to produce a whole document.
pub const MAN_PREAMBLE: &'static str = ".ie \\n(.g .ds Aq \\(aq\n.el .ds Aq '\n";

/// A section added to a page: the first as it is, every later one without
/// the repeated preamble.
pub open spec fn section_added(page: Seq<char>, section: Seq<char>) -> Seq<char> {
    if page.len() == 0 {
        section
    } else if text::starts_with(section, MAN_PREAMBLE@) {
        page + section.subrange(MAN_PREAMBLE@.len() as int, section.len() as int)
    } else {
        page + section
    }
}

/// Sections put together in order.
pub open spec fn assembled(sections: Seq<Seq<char>>) -> Seq<char>
    decreases sections.len(),
{
    if sections.len() == 0 {
        seq![]
    } else {
        section_added(assembled(sections.drop_last()), sections.last())
    }
}

/// Put rendered sections together into one page, keeping the preamble each
/// of them repeats only from the first.
pub fn assemble_man_page(sections: &[String]) -> (r: String)
    ensures
        r@ == assembled(crate::config::string_views(sections@)),
{
    let ghost sv = crate::config::string_views(sections@);
    let pre = chars_of(MAN_PREAMBLE);
    let mut page: Vec<char> = Vec::new();
    let mut i: usize = 0;
    while i < sections.len()
        invariant
            i <= sections.len(),
            sv == crate::config::string_views(sections@),
            pre@ == MAN_PREAMBLE@,
            page@ == assembled(sv.subrange(0, i as int)),
        decreases sections.len() - i,
    {
        let ghost sub = sv.subrange(0, i as int + 1);
        proof {
            assert(sub.drop_last() =~= sv.subrange(0, i as int));
            assert(sub.last() == sections@[i as int]@);
        }
        let sec = chars_of(sections[i].as_str());
        if page.len() == 0 {
            page = sec;
        } else if starts_with_str(&sec, MAN_PREAMBLE) {
            let rest = slice_vec(&sec, pre.len(), sec.len());
            append_seq(&mut page, &rest);
        } else {
            append_seq(&mut page, &sec);
        }
        i = i + 1;
    }
    proof {
        assert(sv.subrange(0, sections.len() as int) =~= sv);
    }
    string_of(&page)
}

} // verus!
