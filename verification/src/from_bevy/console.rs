//! The developer console: its command grammar and what each command does.
//!
//! A console line is split into words at white space. The first word names a command and
//! the others are its arguments:
//!
//! ```plaintext
//! let <id> <action>    inject a game event into foreend <id>: moveleft/left, moveright/right
//! list <action>        list foreend/referee
//! help                 print the commands
//! ```
//!
//! An argument that starts with `-` (other than `-` itself) is an unknown option and makes the
//! line illegal; a first `--` is dropped and makes every following word an argument. `<id>` is
//! a decimal number that fits in a `usize`, possibly preceded by `+`.

use vstd::prelude::*;
use vstd::string::StrSliceExecFns;
use crate::from_bevy::event::GameEvent;

verus! {

/// Unicode white space, as `char::is_whitespace` decides it.
pub open spec fn is_ws(c: char) -> bool {
    let u = c as u32;
    ||| 0x9 <= u <= 0xd
    ||| u == 0x20
    ||| u == 0x85
    ||| u == 0xa0
    ||| u == 0x1680
    ||| 0x2000 <= u <= 0x200a
    ||| u == 0x2028
    ||| u == 0x2029
    ||| u == 0x202f
    ||| u == 0x205f
    ||| u == 0x3000
}

/// The words of `s` that follow the partial word `cur`.
pub open spec fn words_acc(s: Seq<char>, cur: Seq<char>) -> Seq<Seq<char>>
    decreases s.len(),
{
    if s.len() == 0 {
        if cur.len() > 0 { seq![cur] } else { Seq::empty() }
    } else if is_ws(s[0]) {
        (if cur.len() > 0 { seq![cur] } else { Seq::empty() }) + words_acc(s.drop_first(), Seq::empty())
    } else {
        words_acc(s.drop_first(), cur.push(s[0]))
    }
}

/// The maximal runs of non-white-space characters of `s`, in order.
pub open spec fn words(s: Seq<char>) -> Seq<Seq<char>> {
    words_acc(s, Seq::empty())
}

/// The arguments of a command: `None` when one is an unknown option. Once `raw` holds, every
/// word is an argument.
pub open spec fn positionals(ws: Seq<Seq<char>>, raw: bool) -> Option<Seq<Seq<char>>>
    decreases ws.len(),
{
    if ws.len() == 0 {
        Some(Seq::empty())
    } else if !raw && ws[0] == seq!['-', '-'] {
        positionals(ws.drop_first(), true)
    } else if !raw && ws[0].len() >= 2 && ws[0][0] == '-' {
        None
    } else {
        match positionals(ws.drop_first(), raw) {
            Some(r) => Some(seq![ws[0]] + r),
            None => None,
        }
    }
}

pub open spec fn is_digit(c: char) -> bool {
    '0' <= c <= '9'
}

/// The number written in decimal by the digits `s`.
pub open spec fn decimal_value(s: Seq<char>) -> int
    decreases s.len(),
{
    if s.len() == 0 {
        0
    } else {
        decimal_value(s.drop_last()) * 10 + (s.last() as u32 - 48)
    }
}

/// `s` without its leading `+`, if any.
pub open spec fn unsigned_digits(s: Seq<char>) -> Seq<char> {
    if s.len() > 0 && s[0] == '+' { s.drop_first() } else { s }
}

pub open spec fn all_digits(d: Seq<char>) -> bool {
    forall|i: int| 0 <= i < d.len() ==> is_digit(#[trigger] d[i])
}

/// A `usize` written in decimal, possibly preceded by `+`.
pub open spec fn spec_parse_usize(s: Seq<char>) -> Option<usize> {
    let d = unsigned_digits(s);
    if d.len() > 0 && all_digits(d) && decimal_value(d) <= usize::MAX {
        Some(decimal_value(d) as usize)
    } else {
        None
    }
}

/// A console command as characters.
pub enum ConsoleCommandView {
    Let { id: usize, action: Seq<char> },
    List { action: Seq<char> },
    Help,
}

/// A console command.
pub enum ConsoleCommand {
    /// Inject a game event into foreend `id`.
    Let { id: usize, action: String },
    /// List the foreends or the referee.
    List { action: String },
    /// Print the commands.
    Help,
}

impl View for ConsoleCommand {
    type V = ConsoleCommandView;

    open spec fn view(&self) -> ConsoleCommandView {
        match self {
            ConsoleCommand::Let { id, action } => ConsoleCommandView::Let { id: *id, action: action@ },
            ConsoleCommand::List { action } => ConsoleCommandView::List { action: action@ },
            ConsoleCommand::Help => ConsoleCommandView::Help,
        }
    }
}

/// The command a console line holds, if the line follows the grammar.
pub open spec fn spec_parse_command(line: Seq<char>) -> Option<ConsoleCommandView> {
    let ws = words(line);
    if ws.len() == 0 {
        None
    } else {
        match positionals(ws.drop_first(), false) {
            None => None,
            Some(a) => if ws[0] == seq!['l', 'e', 't'] && a.len() == 2 && spec_parse_usize(a[0]) is Some {
                Some(ConsoleCommandView::Let { id: spec_parse_usize(a[0])->0, action: a[1] })
            } else if ws[0] == seq!['l', 'i', 's', 't'] && a.len() == 1 {
                Some(ConsoleCommandView::List { action: a[0] })
            } else if ws[0] == seq!['h', 'e', 'l', 'p'] && a.len() == 0 {
                Some(ConsoleCommandView::Help)
            } else {
                None
            },
        }
    }
}

/// What the console does for a line.
#[derive(Copy, Clone, Debug, PartialEq, Eq, Structural)]
pub enum ConsoleAction {
    /// Nothing.
    Ignore,
    /// Tell the developer the line is illegal.
    IllegalSyntax,
    /// Send `ge` to foreend `id`.
    Send { id: usize, ge: GameEvent },
    /// Print the registered foreends.
    ListForeend,
    /// Print the referee's state and athletes.
    ListReferee,
    /// Print the commands.
    PrintHelp,
}

/// What the console does for the command `cmd` (`None`: the line is illegal).
pub open spec fn spec_console_action(cmd: Option<ConsoleCommandView>) -> ConsoleAction {
    match cmd {
        None => ConsoleAction::IllegalSyntax,
        Some(ConsoleCommandView::Let { id, action }) => if action == seq![
            'm',
            'o',
            'v',
            'e',
            'l',
            'e',
            'f',
            't',
        ] || action == seq!['l', 'e', 'f', 't'] {
            ConsoleAction::Send { id, ge: GameEvent::MoveLeft }
        } else if action == seq!['m', 'o', 'v', 'e', 'r', 'i', 'g', 'h', 't'] || action == seq![
            'r',
            'i',
            'g',
            'h',
            't',
        ] {
            ConsoleAction::Send { id, ge: GameEvent::MoveRight }
        } else {
            ConsoleAction::Ignore
        },
        Some(ConsoleCommandView::List { action }) => if action == seq!['f', 'o', 'r', 'e', 'e', 'n', 'd'] {
            ConsoleAction::ListForeend
        } else if action == seq!['r', 'e', 'f', 'e', 'r', 'e', 'e'] {
            ConsoleAction::ListReferee
        } else {
            ConsoleAction::Ignore
        },
        Some(ConsoleCommandView::Help) => ConsoleAction::PrintHelp,
    }
}

/// Whether `c` is white space.
pub fn is_whitespace(c: char) -> (b: bool)
    ensures
        b == is_ws(c),
{
    let u = c as u32;
    (0x9 <= u && u <= 0xd) || u == 0x20 || u == 0x85 || u == 0xa0 || u == 0x1680 || (0x2000 <= u
        && u <= 0x200a) || u == 0x2028 || u == 0x2029 || u == 0x202f || u == 0x205f || u == 0x3000
}

/// The characters of `s`.
pub(crate) fn str_chars(s: &str) -> (v: Vec<char>)
    ensures
        v@ == s@,
{
    let mut v: Vec<char> = Vec::new();
    let ghost all = s@;
    for c in iter: s.chars()
        invariant
            iter.seq() == all,
            v@ == all.take(iter.index() as int),
    {
        proof {
            assert(all.take(iter.index() as int + 1) =~= all.take(iter.index() as int).push(c));
        }
        v.push(c);
    }
    assert(v@ =~= all);
    v
}

/// Whether `s` is the string `lit`.
pub fn str_is(s: &str, lit: &[char]) -> (b: bool)
    ensures
        b == (s@ == lit@),
{
    let v = str_chars(s);
    if v.len() != lit.len() {
        return false;
    }
    let mut i: usize = 0;
    while i < v.len()
        invariant
            v@ == s@,
            v@.len() == lit@.len(),
            0 <= i <= v@.len(),
            forall|j: int| 0 <= j < i ==> v@[j] == lit@[j],
        decreases v@.len() - i,
    {
        if v[i] != lit[i] {
            return false;
        }
        i = i + 1;
    }
    assert(v@ =~= lit@);
    true
}

/// Whether the line holds only white space.
pub fn is_blank(line: &str) -> (b: bool)
    ensures
        b == (forall|i: int| 0 <= i < line@.len() ==> is_ws(#[trigger] line@[i])),
{
    let v = str_chars(line);
    let mut i: usize = 0;
    while i < v.len()
        invariant
            v@ == line@,
            0 <= i <= v@.len(),
            forall|j: int| 0 <= j < i ==> is_ws(#[trigger] v@[j]),
        decreases v@.len() - i,
    {
        if !is_whitespace(v[i]) {
            return false;
        }
        i = i + 1;
    }
    true
}

/// The words of `line`, split at white space.
pub fn split_whitespace(line: &str) -> (ws: Vec<String>)
    ensures
        ws@.map_values(|w: String| w@) == words(line@),
{
    let chars = str_chars(line);
    let n = chars.len();
    let mut out: Vec<String> = Vec::new();
    let mut start: usize = 0;
    let mut i: usize = 0;
    assert(line@.skip(0) =~= line@);
    assert(line@.subrange(0, 0) =~= Seq::<char>::empty());
    assert(out@.map_values(|w: String| w@) + words(line@) =~= words(line@));
    while i < n
        invariant
            chars@ == line@,
            n == chars@.len(),
            0 <= start <= i <= n,
            words(line@) == out@.map_values(|w: String| w@) + words_acc(
                line@.skip(i as int),
                line@.subrange(start as int, i as int),
            ),
        decreases n - i,
    {
        let ghost rest = line@.skip(i as int);
        let ghost cur = line@.subrange(start as int, i as int);
        assert(rest.drop_first() =~= line@.skip(i + 1));
        assert(rest[0] == chars@[i as int]);
        if is_whitespace(chars[i]) {
            if start < i {
                let w = line.substring_char(start, i).to_owned();
                let ghost before = out@.map_values(|w: String| w@);
                out.push(w);
                assert(out@.map_values(|w: String| w@) =~= before.push(cur));
            }
            start = i + 1;
            assert(line@.subrange(start as int, i + 1) =~= Seq::<char>::empty());
        } else {
            assert(cur.push(chars@[i as int]) =~= line@.subrange(start as int, i + 1));
        }
        i = i + 1;
    }
    let ghost cur = line@.subrange(start as int, n as int);
    assert(line@.skip(n as int) =~= Seq::<char>::empty());
    if start < n {
        let w = line.substring_char(start, n).to_owned();
        let ghost before = out@.map_values(|w: String| w@);
        out.push(w);
        assert(out@.map_values(|w: String| w@) =~= before.push(cur));
        assert(words(line@) =~= out@.map_values(|w: String| w@));
    } else {
        assert(words(line@) =~= out@.map_values(|w: String| w@));
    }
    out
}

/// Whether `w` looks like an option: a `-` followed by at least one character.
fn looks_like_option(w: &str) -> (b: bool)
    ensures
        b == (w@.len() >= 2 && w@[0] == '-'),
{
    let v = str_chars(w);
    v.len() >= 2 && v[0] == '-'
}

/// The arguments that follow the command word `ws[0]`; `None` when one is an unknown option.
fn positional_args(ws: &Vec<String>) -> (args: Option<Vec<String>>)
    requires
        ws@.len() > 0,
    ensures
        match args {
            Some(a) => positionals(ws@.map_values(|w: String| w@).drop_first(), false) == Some(
                a@.map_values(|w: String| w@),
            ),
            None => positionals(ws@.map_values(|w: String| w@).drop_first(), false) is None,
        },
{
    let ghost all = ws@.map_values(|w: String| w@);
    let mut out: Vec<String> = Vec::new();
    let mut raw = false;
    let mut i: usize = 1;
    assert(all.skip(1) =~= all.drop_first());
    while i < ws.len()
        invariant
            all == ws@.map_values(|w: String| w@),
            1 <= i <= ws@.len(),
            positionals(all.drop_first(), false) == match positionals(all.skip(i as int), raw) {
                Some(r) => Some(out@.map_values(|w: String| w@) + r),
                None => None,
            },
        decreases ws@.len() - i,
    {
        let ghost rest = all.skip(i as int);
        assert(rest.drop_first() =~= all.skip(i + 1));
        assert(rest[0] == ws@[i as int]@);
        let w = &ws[i];
        if !raw && str_is(w.as_str(), &['-', '-']) {
            proof {
                assert(['-', '-']@ =~= seq!['-', '-']);
            }
            raw = true;
        } else if !raw && looks_like_option(w.as_str()) {
            proof {
                assert(['-', '-']@ =~= seq!['-', '-']);
            }
            return None;
        } else {
            proof {
                assert(['-', '-']@ =~= seq!['-', '-']);
                let before = out@.map_values(|w: String| w@);
                assert(forall|r: Seq<Seq<char>>| #![auto] before + (seq![rest[0]] + r) =~= before.push(rest[0]) + r);
            }
            let ghost before = out@.map_values(|w: String| w@);
            out.push(w.clone());
            assert(out@.map_values(|w: String| w@) =~= before.push(rest[0]));
        }
        i = i + 1;
    }
    assert(all.skip(i as int) =~= Seq::<Seq<char>>::empty());
    assert(out@.map_values(|w: String| w@) + Seq::<Seq<char>>::empty() =~= out@.map_values(|w: String| w@));
    Some(out)
}

pub(crate) proof fn lemma_decimal_take(d: Seq<char>, i: int)
    requires
        0 <= i < d.len(),
    ensures
        decimal_value(d.take(i + 1)) == decimal_value(d.take(i)) * 10 + (d[i] as u32 - 48),
{
    assert(d.take(i + 1).drop_last() =~= d.take(i));
}

pub(crate) proof fn lemma_decimal_monotone(d: Seq<char>, i: int, j: int)
    requires
        0 <= i <= j <= d.len(),
        forall|k: int| 0 <= k < d.len() ==> is_digit(#[trigger] d[k]),
    ensures
        0 <= decimal_value(d.take(i)) <= decimal_value(d.take(j)),
    decreases j - i,
{
    if i == j {
        lemma_decimal_nonneg(d, i);
    } else {
        lemma_decimal_monotone(d, i, j - 1);
        lemma_decimal_take(d, j - 1);
        assert(is_digit(d[j - 1]));
    }
}

pub(crate) proof fn lemma_decimal_nonneg(d: Seq<char>, i: int)
    requires
        0 <= i <= d.len(),
        forall|k: int| 0 <= k < d.len() ==> is_digit(#[trigger] d[k]),
    ensures
        0 <= decimal_value(d.take(i)),
    decreases i,
{
    if i > 0 {
        lemma_decimal_nonneg(d, i - 1);
        lemma_decimal_take(d, i - 1);
        assert(is_digit(d[i - 1]));
    }
}

/// Reads a `usize` written in decimal, possibly preceded by `+`.
pub fn parse_usize(s: &str) -> (n: Option<usize>)
    ensures
        n == spec_parse_usize(s@),
{
    let v = str_chars(s);
    let start: usize = if v.len() > 0 && v[0] == '+' {
        1
    } else {
        0
    };
    let ghost d = unsigned_digits(s@);
    assert(d =~= v@.skip(start as int));
    if start >= v.len() {
        return None;
    }
    let mut acc: usize = 0;
    let mut i: usize = start;
    assert(d.take(0) =~= Seq::<char>::empty());
    while i < v.len()
        invariant
            v@ == s@,
            d == v@.skip(start as int),
            d == unsigned_digits(s@),
            start <= i <= v@.len(),
            forall|k: int| 0 <= k < i - start ==> is_digit(#[trigger] d[k]),
            acc == decimal_value(d.take(i - start)),
        decreases v@.len() - i,
    {
        let c = v[i];
        assert(d[i - start] == c);
        if !('0' <= c && c <= '9') {
            assert(!is_digit(d[i - start]));
            return None;
        }
        proof {
            lemma_decimal_take(d, i - start);
        }
        let digit = (c as u32 - 48) as usize;
        let m = acc.checked_mul(10);
        if m.is_none() {
            proof {
                assert(acc * 10 > usize::MAX);
                assert(decimal_value(d.take(i - start + 1)) > usize::MAX);
                lemma_none_when_too_big(d, i - start);
            }
            return None;
        }
        let t = m.unwrap().checked_add(digit);
        if t.is_none() {
            proof {
                lemma_none_when_too_big(d, i - start);
            }
            return None;
        }
        acc = t.unwrap();
        i = i + 1;
    }
    assert(d.take(d.len() as int) =~= d);
    Some(acc)
}

/// When a prefix of the digits is too big, so is the whole number, unless a non-digit comes.
proof fn lemma_none_when_too_big(d: Seq<char>, i: int)
    requires
        0 <= i < d.len(),
        forall|k: int| 0 <= k < i ==> is_digit(#[trigger] d[k]),
        is_digit(d[i]),
        decimal_value(d.take(i + 1)) > usize::MAX,
    ensures
        (forall|k: int| 0 <= k < d.len() ==> is_digit(#[trigger] d[k])) ==> decimal_value(d)
            > usize::MAX,
{
    if forall|k: int| 0 <= k < d.len() ==> is_digit(#[trigger] d[k]) {
        lemma_decimal_monotone(d, i + 1, d.len() as int);
        assert(d.take(d.len() as int) =~= d);
    }
}

/// Parses a console line: the command it holds, `None` if it does not follow the grammar.
pub fn parse_command(line: &str) -> (cmd: Option<ConsoleCommand>)
    ensures
        match cmd {
            Some(c) => spec_parse_command(line@) == Some(c@),
            None => spec_parse_command(line@) is None,
        },
{
    let ws = split_whitespace(line);
    let ghost all = ws@.map_values(|w: String| w@);
    if ws.len() == 0 {
        return None;
    }
    assert(all[0] == ws@[0]@);
    let args = match positional_args(&ws) {
        Some(a) => a,
        None => {
            return None;
        },
    };
    let ghost a = args@.map_values(|w: String| w@);
    let name = ws[0].as_str();
    proof {
        assert(['l', 'e', 't']@ =~= seq!['l', 'e', 't']);
        assert(['l', 'i', 's', 't']@ =~= seq!['l', 'i', 's', 't']);
        assert(['h', 'e', 'l', 'p']@ =~= seq!['h', 'e', 'l', 'p']);
    }
    if str_is(name, &['l', 'e', 't']) && args.len() == 2 {
        assert(a[0] == args@[0]@ && a[1] == args@[1]@);
        match parse_usize(args[0].as_str()) {
            Some(id) => {
                return Some(ConsoleCommand::Let { id, action: args[1].clone() });
            },
            None => {
                return None;
            },
        }
    }
    if str_is(name, &['l', 'i', 's', 't']) && args.len() == 1 {
        assert(a[0] == args@[0]@);
        return Some(ConsoleCommand::List { action: args[0].clone() });
    }
    if str_is(name, &['h', 'e', 'l', 'p']) && args.len() == 0 {
        return Some(ConsoleCommand::Help);
    }
    None
}

/// What the console does for the command in `line`, once the developer's own handler has
/// declined the line: inject an event, list the foreends or the referee, print the commands,
/// report an illegal line, or nothing for an unknown action.
pub fn console_action(line: &str) -> (action: ConsoleAction)
    ensures
        action == spec_console_action(spec_parse_command(line@)),
{
    proof {
        assert(['m', 'o', 'v', 'e', 'l', 'e', 'f', 't']@ =~= seq!['m', 'o', 'v', 'e', 'l', 'e', 'f', 't']);
        assert(['l', 'e', 'f', 't']@ =~= seq!['l', 'e', 'f', 't']);
        assert(['m', 'o', 'v', 'e', 'r', 'i', 'g', 'h', 't']@ =~= seq!['m', 'o', 'v', 'e', 'r', 'i', 'g', 'h', 't']);
        assert(['r', 'i', 'g', 'h', 't']@ =~= seq!['r', 'i', 'g', 'h', 't']);
        assert(['f', 'o', 'r', 'e', 'e', 'n', 'd']@ =~= seq!['f', 'o', 'r', 'e', 'e', 'n', 'd']);
        assert(['r', 'e', 'f', 'e', 'r', 'e', 'e']@ =~= seq!['r', 'e', 'f', 'e', 'r', 'e', 'e']);
    }
    match parse_command(line) {
        None => ConsoleAction::IllegalSyntax,
        Some(ConsoleCommand::Let { id, action }) => {
            let a = action.as_str();
            if str_is(a, &['m', 'o', 'v', 'e', 'l', 'e', 'f', 't']) || str_is(a, &['l', 'e', 'f', 't']) {
                ConsoleAction::Send { id, ge: GameEvent::MoveLeft }
            } else if str_is(a, &['m', 'o', 'v', 'e', 'r', 'i', 'g', 'h', 't']) || str_is(
                a,
                &['r', 'i', 'g', 'h', 't'],
            ) {
                ConsoleAction::Send { id, ge: GameEvent::MoveRight }
            } else {
                ConsoleAction::Ignore
            }
        },
        Some(ConsoleCommand::List { action }) => {
            let a = action.as_str();
            if str_is(a, &['f', 'o', 'r', 'e', 'e', 'n', 'd']) {
                ConsoleAction::ListForeend
            } else if str_is(a, &['r', 'e', 'f', 'e', 'r', 'e', 'e']) {
                ConsoleAction::ListReferee
            } else {
                ConsoleAction::Ignore
            }
        },
        Some(ConsoleCommand::Help) => ConsoleAction::PrintHelp,
    }
}

} // verus!
