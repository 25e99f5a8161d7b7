//! Reading a hotkey such as `Ctrl+Alt+Z`.

use crate::text::{
    ascii_lowercase, ascii_upper, ascii_uppercase, chars_of, decimal, decimal_reads_back, is_digit,
    is_space, owned, parse_u32, push_decimal, same_text, text_between, to_ascii_lowercase,
    to_ascii_uppercase, trim, trim_end, trim_start, trimmed, unsigned, views,
};
use crate::config::opt_view;
use vstd::prelude::*;
use vstd::string::*;

verus! {

/// `MOD_ALT`.
pub const MOD_ALT: u32 = 0x1;

/// `MOD_CONTROL`.
pub const MOD_CONTROL: u32 = 0x2;

/// `MOD_SHIFT`.
pub const MOD_SHIFT: u32 = 0x4;

/// `MOD_WIN`.
pub const MOD_WIN: u32 = 0x8;

/// `MOD_NOREPEAT`.
pub const MOD_NOREPEAT: u32 = 0x4000;

/// A hotkey as the system takes it.
#[derive(Clone, Copy, Debug, PartialEq, Eq, Structural)]
pub struct HotKeyBinding {
    /// The `MOD_` values that it has, added up.
    pub modifiers: u32,
    pub virtual_key: u32,
}

/// A hotkey that was read.
#[derive(Clone, Debug, PartialEq, Eq)]
pub struct ParsedHotKey {
    pub binding: HotKeyBinding,
    /// The hotkey in its one way of writing.
    pub display: String,
}

/// The modifiers of a hotkey.
#[derive(Clone, Copy, Debug, PartialEq, Eq, Structural)]
pub struct Modifiers {
    pub ctrl: bool,
    pub alt: bool,
    pub shift: bool,
    pub win: bool,
}

impl Modifiers {
    /// Whether there is one.
    pub open spec fn any(self) -> bool {
        self.ctrl || self.alt || self.shift || self.win
    }

    /// The `MOD_` values that they have, added up.
    pub open spec fn bits(self) -> int {
        (if self.ctrl {
            MOD_CONTROL as int
        } else {
            0
        }) + (if self.alt {
            MOD_ALT as int
        } else {
            0
        }) + (if self.shift {
            MOD_SHIFT as int
        } else {
            0
        }) + (if self.win {
            MOD_WIN as int
        } else {
            0
        })
    }

    /// Their names, in the order in which they are written.
    pub open spec fn names(self) -> Seq<Seq<char>> {
        let a = if self.ctrl {
            seq!["Ctrl"@]
        } else {
            Seq::empty()
        };
        let b = if self.alt {
            a.push("Alt"@)
        } else {
            a
        };
        let c = if self.shift {
            b.push("Shift"@)
        } else {
            b
        };
        if self.win {
            c.push("Win"@)
        } else {
            c
        }
    }
}

/// Whether `c` is an ASCII capital or digit.
pub open spec fn is_plain_key(c: char) -> bool {
    is_digit(c) || ('A' <= c && c <= 'Z')
}

/// The key code and name of `token`: a letter, a digit, or F1 to F24.
pub open spec fn virtual_key(token: Seq<char>) -> Option<(int, Seq<char>)> {
    let upper = ascii_uppercase(token);
    let n = unsigned(upper.skip(1));
    if upper.len() == 1 && is_plain_key(upper[0]) {
        Some((upper[0] as int, upper))
    } else if upper.len() > 1 && upper[0] == 'F' && n is Some && 1 <= n->0 <= 24 {
        Some((0x70 + n->0 - 1, "F"@ + decimal(n->0 as nat)))
    } else {
        None
    }
}

/// See [`virtual_key`].
pub fn parse_virtual_key(token: &str) -> (key: Option<(u32, String)>)
    ensures
        match key {
            Some((code, name)) => virtual_key(token@) == Some((code as int, name@)),
            None => virtual_key(token@) is None,
        },
{
    let upper = to_ascii_uppercase(token);
    let chars = chars_of(upper.as_str());
    if chars.len() == 1 {
        let c = chars[0];
        if ('0' <= c && c <= '9') || ('A' <= c && c <= 'Z') {
            return Some((c as u32, upper));
        }
        return None;
    }
    if chars.len() == 0 || chars[0] != 'F' {
        return None;
    }
    let rest = text_between(chars.as_slice(), 1, chars.len());
    assert(rest@ == upper@.skip(1));
    match parse_u32(rest.as_str()) {
        Some(n) => {
            if n < 1 || n > 24 {
                return None;
            }
            let mut name = owned("F");
            push_decimal(&mut name, n as u128);
            Some((0x70 + n - 1, name))
        },
        None => None,
    }
}

/// `s` cut at each `+`.
pub open spec fn pieces(s: Seq<char>) -> Seq<Seq<char>>
    decreases s.len(),
{
    if s.len() == 0 {
        seq![Seq::empty()]
    } else {
        let before = pieces(s.drop_last());
        if s.last() == '+' {
            before.push(Seq::empty())
        } else {
            before.update(before.len() - 1, before.last().push(s.last()))
        }
    }
}

proof fn there_is_a_piece(s: Seq<char>)
    ensures
        pieces(s).len() > 0,
    decreases s.len(),
{
    if s.len() > 0 {
        there_is_a_piece(s.drop_last());
    }
}

fn split_plus(s: &str) -> (out: Vec<String>)
    ensures
        views(out@) == pieces(s@),
{
    let chars = chars_of(s);
    let mut out: Vec<String> = Vec::new();
    let mut current = String::new();
    assert(s@.take(0) =~= Seq::empty());
    assert(views(out@).push(current@) =~= pieces(s@.take(0)));
    for i in 0..chars.len()
        invariant
            chars@ == s@,
            views(out@).push(current@) == pieces(s@.take(i as int)),
    {
        let c = chars[i];
        let ghost before = pieces(s@.take(i as int));
        let ghost out_before = views(out@);
        let ghost part = current@;
        assert(s@.take(i + 1).drop_last() =~= s@.take(i as int));
        assert(before.last() == part);
        if c == '+' {
            out.push(current);
            current = String::new();
            assert(views(out@) =~= out_before.push(part));
            assert(views(out@).push(current@) =~= before.push(Seq::empty()));
        } else {
            current.push(c);
            assert(views(out@).push(current@) =~= before.update(
                before.len() - 1,
                before.last().push(c),
            ));
        }
    }
    assert(s@.take(s@.len() as int) =~= s@);
    let ghost done = views(out@);
    let ghost part = current@;
    out.push(current);
    assert(views(out@) =~= done.push(part));
    out
}

/// What has been read of a hotkey.
#[verifier::ext_equal]
pub struct Reading {
    pub modifiers: Modifiers,
    pub key: Option<(int, Seq<char>)>,
}

/// What a token of a hotkey is.
pub enum Token {
    Ctrl,
    Alt,
    Shift,
    Win,
    Other,
}

/// What `token` is.
pub open spec fn token_of(token: Seq<char>) -> Token {
    let low = ascii_lowercase(token);
    if low == "ctrl"@ || low == "control"@ {
        Token::Ctrl
    } else if low == "alt"@ {
        Token::Alt
    } else if low == "shift"@ {
        Token::Shift
    } else if low == "win"@ || low == "windows"@ {
        Token::Win
    } else {
        Token::Other
    }
}

/// That the modifier `name` is there twice.
pub open spec fn repeated(name: Seq<char>) -> Seq<char> {
    "修饰键 "@ + name + " 重复"@
}

/// That `token` is no key.
pub open spec fn unsupported(token: Seq<char>) -> Seq<char> {
    "不支持按键“"@ + token + "”；请使用 A-Z、0-9 或 F1-F24"@
}

/// `r` after `token`, or what is wrong with that.
pub open spec fn read_token(r: Reading, token: Seq<char>) -> Result<Reading, Seq<char>> {
    let m = r.modifiers;
    if token.len() == 0 {
        Err("快捷键中存在空白按键"@)
    } else {
        match token_of(token) {
            Token::Ctrl => if m.ctrl {
                Err(repeated("Ctrl"@))
            } else {
                Ok(Reading { modifiers: Modifiers { ctrl: true, ..m }, ..r })
            },
            Token::Alt => if m.alt {
                Err(repeated("Alt"@))
            } else {
                Ok(Reading { modifiers: Modifiers { alt: true, ..m }, ..r })
            },
            Token::Shift => if m.shift {
                Err(repeated("Shift"@))
            } else {
                Ok(Reading { modifiers: Modifiers { shift: true, ..m }, ..r })
            },
            Token::Win => if m.win {
                Err(repeated("Win"@))
            } else {
                Ok(Reading { modifiers: Modifiers { win: true, ..m }, ..r })
            },
            Token::Other => if r.key is Some {
                Err("快捷键只能包含一个普通按键"@)
            } else if virtual_key(token) is None {
                Err(unsupported(token))
            } else {
                Ok(Reading { key: virtual_key(token), ..r })
            },
        }
    }
}

/// The reading of nothing.
pub open spec fn nothing_read() -> Reading {
    Reading {
        modifiers: Modifiers { ctrl: false, alt: false, shift: false, win: false },
        key: None,
    }
}

/// What the pieces read to, or the first thing that is wrong.
pub open spec fn read_all(parts: Seq<Seq<char>>) -> Result<Reading, Seq<char>>
    decreases parts.len(),
{
    if parts.len() == 0 {
        Ok(nothing_read())
    } else {
        match read_all(parts.drop_last()) {
            Ok(r) => read_token(r, trimmed(parts.last())),
            Err(e) => Err(e),
        }
    }
}

/// `names` with a `+` between each two.
pub open spec fn plus_joined(names: Seq<Seq<char>>) -> Seq<char>
    decreases names.len(),
{
    if names.len() == 0 {
        Seq::empty()
    } else if names.len() == 1 {
        names[0]
    } else {
        plus_joined(names.drop_last()) + "+"@ + names.last()
    }
}

/// A hotkey in mathematical terms: its modifiers, its key code and its one way of writing.
pub struct HotKey {
    pub modifiers: Modifiers,
    pub key: int,
    pub display: Seq<char>,
}

/// The hotkey that `input` stands for: none where it is blank; else at least one modifier and exactly
/// one key, or what is wrong.
pub open spec fn hotkey_of(input: Seq<char>) -> Result<Option<HotKey>, Seq<char>> {
    let text = trimmed(input);
    if text.len() == 0 {
        Ok(None)
    } else {
        match read_all(pieces(text)) {
            Err(e) => Err(e),
            Ok(r) => if !r.modifiers.any() {
                Err("快捷键至少需要 Ctrl、Alt、Shift 或 Win 中的一个修饰键"@)
            } else {
                match r.key {
                    None => Err("快捷键缺少普通按键"@),
                    Some((key, name)) => Ok(
                        Some(
                            HotKey {
                                modifiers: r.modifiers,
                                key,
                                display: plus_joined(r.modifiers.names().push(name)),
                            },
                        ),
                    ),
                }
            },
        }
    }
}

fn classify(token: &str) -> (t: Token)
    ensures
        t == token_of(token@),
{
    let low = to_ascii_lowercase(token);
    if same_text(low.as_str(), "ctrl") || same_text(low.as_str(), "control") {
        Token::Ctrl
    } else if same_text(low.as_str(), "alt") {
        Token::Alt
    } else if same_text(low.as_str(), "shift") {
        Token::Shift
    } else if same_text(low.as_str(), "win") || same_text(low.as_str(), "windows") {
        Token::Win
    } else {
        Token::Other
    }
}

/// Sets the modifier called `name`, unless it is set already.
pub fn add_modifier(set: &mut bool, name: &str) -> (r: Result<(), String>)
    ensures
        *final(set),
        match r {
            Ok(_) => !*old(set),
            Err(e) => *old(set) && e@ == repeated(name@),
        },
{
    if *set {
        let mut e = owned("修饰键 ");
        e.append(name);
        e.append(" 重复");
        return Err(e);
    }
    *set = true;
    Ok(())
}

fn push_name(out: &mut String, first: bool, name: &str)
    ensures
        final(out)@ == if first {
            old(out)@ + name@
        } else {
            old(out)@ + "+"@ + name@
        },
{
    if !first {
        out.append("+");
    }
    out.append(name);
}

proof fn join_one_more(names: Seq<Seq<char>>, name: Seq<char>)
    ensures
        plus_joined(names.push(name)) == if names.len() == 0 {
            plus_joined(names) + name
        } else {
            plus_joined(names) + "+"@ + name
        },
{
    assert(names.push(name).drop_last() =~= names);
    if names.len() == 0 {
        assert(plus_joined(names) + name =~= name);
    }
}

fn display_of(m: Modifiers, key: &str) -> (out: String)
    ensures
        out@ == plus_joined(m.names().push(key@)),
{
    let mut out = String::new();
    let mut first: bool = true;
    let ghost mut names = Seq::<Seq<char>>::empty();
    if m.ctrl {
        proof {
            join_one_more(names, "Ctrl"@);
            names = names.push("Ctrl"@);
        }
        push_name(&mut out, first, "Ctrl");
        first = false;
    }
    if m.alt {
        proof {
            join_one_more(names, "Alt"@);
            names = names.push("Alt"@);
        }
        push_name(&mut out, first, "Alt");
        first = false;
    }
    if m.shift {
        proof {
            join_one_more(names, "Shift"@);
            names = names.push("Shift"@);
        }
        push_name(&mut out, first, "Shift");
        first = false;
    }
    if m.win {
        proof {
            join_one_more(names, "Win"@);
            names = names.push("Win"@);
        }
        push_name(&mut out, first, "Win");
        first = false;
    }
    proof {
        assert(names =~= m.names());
        join_one_more(names, key@);
    }
    push_name(&mut out, first, key);
    out
}

/// What a name of a key is, in mathematical terms.
spec fn key_view(key: Option<(u32, String)>) -> Option<(int, Seq<char>)> {
    match key {
        Some((code, name)) => Some((code as int, name@)),
        None => None,
    }
}

/// Reads a hotkey; see [`hotkey_of`]. A held key does not fire it again and again.
pub fn parse_hotkey(input: &str) -> (parsed: Result<Option<ParsedHotKey>, String>)
    ensures
        match parsed {
            Ok(None) => hotkey_of(input@) == Ok::<Option<HotKey>, Seq<char>>(None),
            Ok(Some(p)) => {
                &&& hotkey_of(input@) is Ok
                &&& hotkey_of(input@)->Ok_0 is Some
                &&& p.binding.modifiers == hotkey_of(input@)->Ok_0->0.modifiers.bits()
                    + MOD_NOREPEAT
                &&& p.binding.virtual_key == hotkey_of(input@)->Ok_0->0.key
                &&& p.display@ == hotkey_of(input@)->Ok_0->0.display
            },
            Err(e) => hotkey_of(input@) == Err::<Option<HotKey>, Seq<char>>(e@),
        },
{
    let text = trim(input);
    if text.as_str().is_empty() {
        return Ok(None);
    }
    let parts = split_plus(text.as_str());
    let ghost all = views(parts@);
    let mut m: Modifiers = Modifiers { ctrl: false, alt: false, shift: false, win: false };
    let mut key: Option<(u32, String)> = None;
    for i in 0..parts.len()
        invariant
            text@ == trimmed(input@),
            text@.len() > 0,
            all == views(parts@),
            all == pieces(text@),
            read_all(all.take(i as int)) == Ok::<Reading, Seq<char>>(
                Reading { modifiers: m, key: key_view(key) },
            ),
    {
        let token = trim(parts[i].as_str());
        let ghost here = Reading { modifiers: m, key: key_view(key) };
        proof {
            assert(all.take(i + 1).drop_last() =~= all.take(i as int));
            assert(all.take(i + 1).last() == all[i as int]);
            assert(all[i as int] == parts@[i as int]@);
            assert(read_all(all.take(i + 1)) == read_token(here, token@));
        }
        let problem: Result<(), String> = if token.as_str().is_empty() {
            Err(owned("快捷键中存在空白按键"))
        } else {
            match classify(token.as_str()) {
                Token::Ctrl => add_modifier(&mut m.ctrl, "Ctrl"),
                Token::Alt => add_modifier(&mut m.alt, "Alt"),
                Token::Shift => add_modifier(&mut m.shift, "Shift"),
                Token::Win => add_modifier(&mut m.win, "Win"),
                Token::Other => {
                    if key.is_some() {
                        Err(owned("快捷键只能包含一个普通按键"))
                    } else {
                        key = parse_virtual_key(token.as_str());
                        if key.is_none() {
                            let mut e = owned("不支持按键“");
                            e.append(token.as_str());
                            e.append("”；请使用 A-Z、0-9 或 F1-F24");
                            Err(e)
                        } else {
                            Ok(())
                        }
                    }
                },
            }
        };
        match problem {
            Err(e) => {
                proof {
                    stays_wrong(all, i + 1);
                }
                return Err(e);
            },
            Ok(_) => {},
        }
    }
    assert(all.take(all.len() as int) =~= all);
    if !(m.ctrl || m.alt || m.shift || m.win) {
        return Err(owned("快捷键至少需要 Ctrl、Alt、Shift 或 Win 中的一个修饰键"));
    }
    match key {
        None => Err(owned("快捷键缺少普通按键")),
        Some((virtual_key, name)) => {
            let mut modifiers: u32 = MOD_NOREPEAT;
            if m.ctrl {
                modifiers = modifiers + MOD_CONTROL;
            }
            if m.alt {
                modifiers = modifiers + MOD_ALT;
            }
            if m.shift {
                modifiers = modifiers + MOD_SHIFT;
            }
            if m.win {
                modifiers = modifiers + MOD_WIN;
            }
            Ok(
                Some(
                    ParsedHotKey {
                        binding: HotKeyBinding { modifiers, virtual_key },
                        display: display_of(m, name.as_str()),
                    },
                ),
            )
        },
    }
}

proof fn stays_wrong(parts: Seq<Seq<char>>, n: int)
    requires
        0 <= n <= parts.len(),
        read_all(parts.take(n)) is Err,
    ensures
        read_all(parts) == read_all(parts.take(n)),
    decreases parts.len() - n,
{
    if n == parts.len() {
        assert(parts.take(n) =~= parts);
    } else {
        assert(parts.take(n + 1).drop_last() =~= parts.take(n));
        stays_wrong(parts, n + 1);
    }
}

/// Whether `s` can stand between two `+` as it is: something, without `+`, and no space at its ends.
spec fn is_bare(s: Seq<char>) -> bool {
    &&& s.len() > 0
    &&& !is_space(s[0])
    &&& !is_space(s.last())
    &&& forall|i: int| 0 <= i < s.len() ==> #[trigger] s[i] != '+'
}

proof fn bare_is_trimmed(s: Seq<char>)
    requires
        s.len() > 0,
        !is_space(s[0]),
        !is_space(s.last()),
    ensures
        trimmed(s) == s,
{
    assert(trim_start(s) == s);
    assert(trim_end(s) == s);
}

proof fn pieces_without_plus(s: Seq<char>)
    requires
        forall|i: int| 0 <= i < s.len() ==> #[trigger] s[i] != '+',
    ensures
        pieces(s) == seq![s],
    decreases s.len(),
{
    if s.len() > 0 {
        let t = s.drop_last();
        assert forall|i: int| 0 <= i < t.len() implies #[trigger] t[i] != '+' by {
            assert(t[i] == s[i]);
        }
        pieces_without_plus(t);
        assert(s.last() == s[s.len() - 1]);
        assert(t.push(s.last()) =~= s);
        assert(pieces(s) =~= seq![s]);
    } else {
        assert(s =~= Seq::empty());
        assert(pieces(s) =~= seq![s]);
    }
}

proof fn pieces_behind_plus(a: Seq<char>, b: Seq<char>)
    requires
        forall|i: int| 0 <= i < b.len() ==> #[trigger] b[i] != '+',
    ensures
        pieces(a + "+"@ + b) == pieces(a).push(b),
    decreases b.len(),
{
    reveal_strlit("+");
    let s = a + "+"@ + b;
    if b.len() == 0 {
        assert(s.drop_last() =~= a);
        assert(s.last() == '+');
        assert(b =~= Seq::empty());
    } else {
        let c = b.drop_last();
        assert forall|i: int| 0 <= i < c.len() implies #[trigger] c[i] != '+' by {
            assert(c[i] == b[i]);
        }
        pieces_behind_plus(a, c);
        assert(s.drop_last() =~= a + "+"@ + c);
        assert(s.last() == b[b.len() - 1]);
        let before = pieces(a).push(c);
        assert(c.push(b.last()) =~= b);
        assert(before.update(before.len() - 1, before.last().push(s.last())) =~= pieces(a).push(b));
    }
}

proof fn pieces_of_joined(names: Seq<Seq<char>>)
    requires
        names.len() > 0,
        forall|i: int| 0 <= i < names.len() ==> is_bare(#[trigger] names[i]),
    ensures
        pieces(plus_joined(names)) == names,
        plus_joined(names).len() > 0,
        !is_space(plus_joined(names)[0]),
        !is_space(plus_joined(names).last()),
    decreases names.len(),
{
    reveal_strlit("+");
    if names.len() == 1 {
        assert(is_bare(names[0]));
        pieces_without_plus(names[0]);
        assert(names =~= seq![names[0]]);
    } else {
        let rest = names.drop_last();
        assert forall|i: int| 0 <= i < rest.len() implies is_bare(#[trigger] rest[i]) by {
            assert(rest[i] == names[i]);
        }
        pieces_of_joined(rest);
        let last = names.last();
        assert(is_bare(names[names.len() - 1]));
        pieces_behind_plus(plus_joined(rest), last);
        assert(rest.push(last) =~= names);
        let s = plus_joined(names);
        assert(s == plus_joined(rest) + "+"@ + last);
        assert(s[0] == plus_joined(rest)[0]);
        assert(s.last() == last.last());
    }
}

proof fn modifier_tokens()
    ensures
        token_of("Ctrl"@) == Token::Ctrl,
        token_of("Alt"@) == Token::Alt,
        token_of("Shift"@) == Token::Shift,
        token_of("Win"@) == Token::Win,
        is_bare("Ctrl"@) && is_bare("Alt"@) && is_bare("Shift"@) && is_bare("Win"@),
{
    reveal_strlit("Ctrl");
    reveal_strlit("Alt");
    reveal_strlit("Shift");
    reveal_strlit("Win");
    reveal_strlit("ctrl");
    reveal_strlit("control");
    reveal_strlit("alt");
    reveal_strlit("shift");
    reveal_strlit("win");
    reveal_strlit("windows");
    assert(ascii_lowercase("Ctrl"@) =~= "ctrl"@);
    assert(ascii_lowercase("Alt"@) =~= "alt"@);
    assert(ascii_lowercase("Alt"@).len() != "ctrl"@.len());
    assert(ascii_lowercase("Alt"@).len() != "control"@.len());
    assert(ascii_lowercase("Shift"@) =~= "shift"@);
    assert(ascii_lowercase("Shift"@).len() == 5);
    assert(ascii_lowercase("Win"@) =~= "win"@);
    assert(ascii_lowercase("Win"@)[0] == 'w');
    assert("alt"@[0] == 'a');
}

proof fn key_name_reads_back(token: Seq<char>)
    requires
        virtual_key(token) is Some,
    ensures
        ({
            let (_, name) = virtual_key(token)->0;
            &&& virtual_key(name) == virtual_key(token)
            &&& token_of(name) == Token::Other
            &&& is_bare(name)
        }),
{
    reveal_strlit("F");
    reveal_strlit("ctrl");
    reveal_strlit("control");
    reveal_strlit("alt");
    reveal_strlit("shift");
    reveal_strlit("win");
    reveal_strlit("windows");
    let upper = ascii_uppercase(token);
    let (code, name) = virtual_key(token)->0;
    let low = ascii_lowercase(name);
    if upper.len() == 1 && is_plain_key(upper[0]) {
        assert(ascii_uppercase(name) =~= name);
        assert(low.len() == 1);
    } else {
        let n = unsigned(upper.skip(1))->0 as nat;
        decimal_reads_back(n);
        let d = decimal(n);
        assert(is_digit(d[0]));
        assert(name == "F"@ + d);
        assert forall|i: int| 0 <= i < name.len() implies ascii_upper(#[trigger] name[i])
            == name[i] && name[i] != '+' && !is_space(name[i]) by {
            if i > 0 {
                assert(name[i] == d[i - 1]);
                assert(is_digit(d[i - 1]));
            }
        }
        assert(ascii_uppercase(name) =~= name);
        assert(name.skip(1) =~= d);
        assert(name[0] == 'F');
        assert(low[0] == 'f');
        assert(name.last() == name[name.len() - 1]);
    }
}

proof fn names_read_back(m: Modifiers)
    ensures
        read_all(m.names()) == Ok::<Reading, Seq<char>>(Reading { modifiers: m, key: None }),
        forall|i: int| 0 <= i < m.names().len() ==> is_bare(#[trigger] m.names()[i]),
        m.any() ==> m.names().len() > 0,
{
    modifier_tokens();
    bare_is_trimmed("Ctrl"@);
    bare_is_trimmed("Alt"@);
    bare_is_trimmed("Shift"@);
    bare_is_trimmed("Win"@);
    let none = Modifiers { ctrl: false, alt: false, shift: false, win: false };
    let a = if m.ctrl {
        Seq::<Seq<char>>::empty().push("Ctrl"@)
    } else {
        Seq::empty()
    };
    assert(seq!["Ctrl"@] =~= Seq::<Seq<char>>::empty().push("Ctrl"@));
    if m.ctrl {
        assert(a.drop_last() =~= Seq::empty());
    }
    assert(read_all(a) == Ok::<Reading, Seq<char>>(
        Reading { modifiers: Modifiers { ctrl: m.ctrl, ..none }, key: None },
    ));
    let b = if m.alt {
        a.push("Alt"@)
    } else {
        a
    };
    if m.alt {
        assert(b.drop_last() =~= a);
    }
    assert(read_all(b) == Ok::<Reading, Seq<char>>(
        Reading { modifiers: Modifiers { ctrl: m.ctrl, alt: m.alt, ..none }, key: None },
    ));
    let c = if m.shift {
        b.push("Shift"@)
    } else {
        b
    };
    if m.shift {
        assert(c.drop_last() =~= b);
    }
    assert(read_all(c) == Ok::<Reading, Seq<char>>(
        Reading {
            modifiers: Modifiers { ctrl: m.ctrl, alt: m.alt, shift: m.shift, win: false },
            key: None,
        },
    ));
    let d = if m.win {
        c.push("Win"@)
    } else {
        c
    };
    if m.win {
        assert(d.drop_last() =~= c);
    }
    assert(d =~= m.names());
}

proof fn the_key_of_a_reading(parts: Seq<Seq<char>>)
    requires
        read_all(parts) is Ok,
        read_all(parts)->Ok_0.key is Some,
    ensures
        exists|token: Seq<char>| #[trigger]
            virtual_key(token) == read_all(parts)->Ok_0.key,
    decreases parts.len(),
{
    if parts.len() > 0 {
        let r = read_all(parts.drop_last())->Ok_0;
        if r.key is Some {
            the_key_of_a_reading(parts.drop_last());
        } else {
            assert(virtual_key(trimmed(parts.last())) == read_all(parts)->Ok_0.key);
        }
    }
}

/// The way in which a hotkey is written down reads back to the same hotkey.
pub proof fn a_displayed_hotkey_reads_back(input: Seq<char>)
    requires
        hotkey_of(input) is Ok,
        hotkey_of(input)->Ok_0 is Some,
    ensures
        hotkey_of(hotkey_of(input)->Ok_0->0.display) == hotkey_of(input),
{
    let h = hotkey_of(input)->Ok_0->0;
    let r = read_all(pieces(trimmed(input)))->Ok_0;
    the_key_of_a_reading(pieces(trimmed(input)));
    let token = choose|token: Seq<char>| #[trigger] virtual_key(token) == r.key;
    let (key, name) = r.key->0;
    key_name_reads_back(token);
    names_read_back(r.modifiers);
    let names = r.modifiers.names().push(name);
    assert forall|i: int| 0 <= i < names.len() implies is_bare(#[trigger] names[i]) by {
        if i < r.modifiers.names().len() {
            assert(names[i] == r.modifiers.names()[i]);
        }
    }
    pieces_of_joined(names);
    bare_is_trimmed(h.display);
    assert(h.display == plus_joined(names));
    assert(names.drop_last() =~= r.modifiers.names());
    bare_is_trimmed(name);
    assert(read_all(names) == read_token(Reading { modifiers: r.modifiers, key: None }, name));
}

/// A letter, large or small, and a digit have the code of the capital or the digit; F1 to F24 have the
/// codes from 112 on.
pub proof fn keys_have_their_codes(c: char, n: nat)
    ensures
        'A' <= c && c <= 'Z' ==> virtual_key(seq![c]) == Some((c as int, seq![c])),
        'a' <= c && c <= 'z' ==> virtual_key(seq![c]) == Some(
            (c as int - 32, seq![(c as u32 - 32) as char]),
        ),
        '0' <= c && c <= '9' ==> virtual_key(seq![c]) == Some((c as int, seq![c])),
        1 <= n <= 24 ==> virtual_key(seq!['F'] + decimal(n)) == Some(
            (111 + n as int, seq!['F'] + decimal(n)),
        ),
        n == 0 || n > 24 ==> virtual_key(seq!['F'] + decimal(n)) is None,
{
    let one = seq![c];
    let up = ascii_uppercase(one);
    assert(up.len() == 1 && up[0] == ascii_upper(c));
    if 'a' <= c && c <= 'z' {
        let k = (c as u32 - 32) as u32;
        assert(k as char as u32 == k);
        assert(up =~= seq![k as char]);
    } else {
        assert(up =~= one);
    }
    reveal_strlit("F");
    assert("F"@ =~= seq!['F']);
    let d = decimal(n);
    decimal_reads_back(n);
    let t = seq!['F'] + d;
    let upper = ascii_uppercase(t);
    assert forall|i: int| 0 <= i < t.len() implies #[trigger] upper[i] == t[i] by {
        if i > 0 {
            assert(t[i] == d[i - 1]);
            assert(is_digit(d[i - 1]));
        }
    }
    assert(upper =~= t);
    assert(t.skip(1) =~= d);
    assert(is_digit(d[0]));
    assert(unsigned(d) == if n <= u32::MAX {
        Some(n as int)
    } else {
        None
    });
}

/// The names of modifiers and that of a key, with a `+` between each two, are read as that hotkey: the
/// modifiers that are named, no others, and the key's code.
pub proof fn a_hotkey_is_read_from_its_names(m: Modifiers, token: Seq<char>, key: int)
    requires
        m.any(),
        virtual_key(token) == Some((key, token)),
    ensures
        hotkey_of(plus_joined(m.names().push(token))) == Ok::<Option<HotKey>, Seq<char>>(
            Some(
                HotKey {
                    modifiers: m,
                    key,
                    display: plus_joined(m.names().push(token)),
                },
            ),
        ),
        m.bits() == (if m.alt {
            1int
        } else {
            0
        }) + (if m.ctrl {
            2int
        } else {
            0
        }) + (if m.shift {
            4int
        } else {
            0
        }) + (if m.win {
            8int
        } else {
            0
        }),
{
    key_name_reads_back(token);
    names_read_back(m);
    let names = m.names().push(token);
    assert forall|i: int| 0 <= i < names.len() implies is_bare(#[trigger] names[i]) by {
        if i < m.names().len() {
            assert(names[i] == m.names()[i]);
        }
    }
    pieces_of_joined(names);
    bare_is_trimmed(plus_joined(names));
    bare_is_trimmed(token);
    assert(names.drop_last() =~= m.names());
    assert(read_all(names) == read_token(Reading { modifiers: m, key: None }, token));
}

/// The order of the names and their case do not matter: a modifier is read as itself before and after
/// any other.
pub proof fn modifiers_can_come_in_any_order(r: Reading, a: Seq<char>, b: Seq<char>)
    requires
        a.len() > 0,
        b.len() > 0,
        read_token(r, a) is Ok,
        read_token(r, b) is Ok,
        token_of(a) != token_of(b),
    ensures
        read_token(read_token(r, a)->Ok_0, b) is Ok,
        read_token(read_token(r, a)->Ok_0, b) == read_token(read_token(r, b)->Ok_0, a),
{
}

/// A hotkey that is read has a modifier and a key; a blank text is none.
pub proof fn a_hotkey_has_a_modifier(input: Seq<char>)
    ensures
        hotkey_of(input) matches Ok(Some(h)) ==> h.modifiers.ctrl || h.modifiers.alt
            || h.modifiers.shift || h.modifiers.win,
        hotkey_of(input) == Ok::<Option<HotKey>, Seq<char>>(None) <==> trimmed(input).len() == 0,
{
}

/// The setting of a hotkey after someone asked for another one: none where they asked for none, the
/// new one where it could be registered, and else the one there was, which stays registered.
pub fn changed_hotkey(
    current: &Option<String>,
    asked: &Option<ParsedHotKey>,
    registered: bool,
) -> (kept: Option<String>)
    ensures
        opt_view(kept) == (match asked {
            None => None,
            Some(asked) => if registered {
                Some(asked.display@)
            } else {
                opt_view(*current)
            },
        }),
{
    match asked {
        None => None,
        Some(asked) => if registered {
            Some(asked.display.clone())
        } else {
            match current {
                Some(current) => Some(current.clone()),
                None => None,
            }
        },
    }
}

} // verus!
