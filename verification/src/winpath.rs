//! Paths as Windows writes them: a drive (`C:`), a share (`\\server\share`), a device (`\\.\name`)
//! or none of these, then names set apart by `\` or `/`. Behind `\\?\` a path is verbatim: there `/`
//! is a character like others, and `.` a name. A path is a text; these functions take it apart by
//! its characters alone.

use crate::text::{
    ascii_upper, chars_of, owned, text_between, to_ascii_upper, views,
};
use vstd::prelude::*;
use vstd::string::*;

verus! {

/// Whether `c` sets two names apart.
pub open spec fn is_separator(c: char) -> bool {
    c == '\\' || c == '/'
}

/// Whether `c` can name a drive.
pub open spec fn is_letter(c: char) -> bool {
    ('a' <= c && c <= 'z') || ('A' <= c && c <= 'Z')
}

/// The length of the drive in front of `p`, 0 where there is none.
pub open spec fn drive_len(p: Seq<char>) -> int {
    if p.len() >= 2 && p[1] == ':' && is_letter(p[0]) {
        2
    } else {
        0
    }
}

/// The place of the first separator from `from` on, the end of `p` where there is none. Where
/// `strict`, only `\` is one.
pub open spec fn separator_from(p: Seq<char>, from: int, strict: bool) -> int
    decreases p.len() - from,
{
    if from >= p.len() {
        p.len() as int
    } else if p[from] == '\\' || (!strict && p[from] == '/') {
        from
    } else {
        separator_from(p, from + 1, strict)
    }
}

/// Whether `p` is verbatim: it begins with `\\?\`.
pub open spec fn is_verbatim(p: Seq<char>) -> bool {
    p.len() >= 4 && p[0] == '\\' && p[1] == '\\' && p[2] == '?' && p[3] == '\\'
}

/// Whether the verbatim path `p` names a share: `UNC` follows.
pub open spec fn is_verbatim_share(p: Seq<char>) -> bool {
    p.len() >= 8 && p[4] == 'U' && p[5] == 'N' && p[6] == 'C' && is_separator(p[7])
}

/// Whether the verbatim path `p` names a drive, and nothing more up to the next separator.
pub open spec fn is_verbatim_drive(p: Seq<char>) -> bool {
    p.len() >= 6 && is_letter(p[4]) && p[5] == ':' && (p.len() == 6 || is_separator(p[6]))
}

/// The length of what is in front of the names of the verbatim path `p`.
pub open spec fn verbatim_len(p: Seq<char>) -> int {
    if is_verbatim_share(p) {
        let server_end = separator_from(p, 8, true);
        let end = separator_from(p, server_end + 1, true);
        if server_end + 1 < end {
            end
        } else {
            server_end
        }
    } else if is_verbatim_drive(p) {
        6
    } else {
        separator_from(p, 4, true)
    }
}

/// Whether `p` begins with two separators.
pub open spec fn is_remote(p: Seq<char>) -> bool {
    p.len() >= 2 && is_separator(p[0]) && is_separator(p[1])
}

/// Whether `p` begins with `\\.\`, behind which the name of a device follows.
pub open spec fn is_device(p: Seq<char>) -> bool {
    is_remote(p) && p.len() >= 4 && p[2] == '.' && is_separator(p[3])
}

/// The length of the share in front of `p`, 0 where there is none: two separators, the name of a
/// server, a separator, and a name there.
pub open spec fn share_len(p: Seq<char>) -> int {
    let server_end = separator_from(p, 2, false);
    let end = separator_from(p, server_end + 1, false);
    if is_remote(p) && 2 < server_end && server_end + 1 < end {
        end
    } else {
        0
    }
}

/// The length of what is in front of the names of `p`, 0 where there is nothing.
pub open spec fn prefix_len(p: Seq<char>) -> int {
    if is_verbatim(p) {
        verbatim_len(p)
    } else if is_device(p) {
        separator_from(p, 4, false)
    } else if share_len(p) > 0 {
        share_len(p)
    } else {
        drive_len(p)
    }
}

/// Whether what is in front of the names of `p` is a drive, or nothing.
pub open spec fn is_local(p: Seq<char>) -> bool {
    !is_verbatim(p) && !is_device(p) && share_len(p) == 0
}

/// Whether the character at `i` sets two names of `p` apart, or begins them.
pub open spec fn separates(p: Seq<char>, i: int) -> bool {
    p[i] == '\\' || (p[i] == '/' && (!is_verbatim(p) || i == prefix_len(p)))
}

/// `end` moved back over the separators before it.
pub open spec fn before_separators(p: Seq<char>, end: int) -> int
    decreases end,
{
    if 0 <= prefix_len(p) < end && separates(p, end - 1) {
        before_separators(p, end - 1)
    } else {
        end
    }
}

/// Where the name that reaches up to `end` begins.
pub open spec fn name_from(p: Seq<char>, end: int) -> int
    decreases end,
{
    if 0 <= prefix_len(p) < end && !separates(p, end - 1) {
        name_from(p, end - 1)
    } else {
        end
    }
}

/// `end` moved back to where the last name before it ends: over separators, and over each `.` that
/// is not the first name of a path without a root. A verbatim path keeps its `.`.
pub open spec fn name_end(p: Seq<char>, end: int) -> int
    decreases end,
{
    let to = before_separators(p, end);
    let from = name_from(p, to);
    if !is_verbatim(p) && 0 <= prefix_len(p) < from && from + 1 == to && to <= end && p[from]
        == '.' {
        name_end(p, from)
    } else {
        to
    }
}

/// Whether what reaches from `from` up to `to` is a `.` right behind a drive, which is no name.
pub open spec fn is_start_dot(p: Seq<char>, from: int, to: int) -> bool {
    !is_verbatim(p) && 0 < from && from == prefix_len(p) && to == from + 1 && p[from] == '.'
}

/// Whether `name` stands for a folder that is known without it: `.` or `..`.
pub open spec fn is_dots(name: Seq<char>) -> bool {
    name == seq!['.'] || name == seq!['.', '.']
}

/// The last name of `p`; none where `p` is empty, ends in its root or ends in `..`.
pub open spec fn file_name(p: Seq<char>) -> Option<Seq<char>> {
    let end = name_end(p, p.len() as int);
    let from = name_from(p, end);
    let name = p.subrange(from, end);
    if name.len() == 0 || is_dots(name) {
        None
    } else {
        Some(name)
    }
}

/// `p` without its last name; none where there is no name to leave out.
pub open spec fn parent(p: Seq<char>) -> Option<Seq<char>> {
    let end = name_end(p, p.len() as int);
    let from = name_from(p, end);
    let cut = name_end(p, from);
    if from == end || is_start_dot(p, from, end) {
        None
    } else if cut == prefix_len(p) && cut < from {
        Some(p.take(cut + 1))
    } else {
        Some(p.take(cut))
    }
}

/// The place of the last dot of `name` before `end`, -1 where there is none.
pub open spec fn last_dot(name: Seq<char>, end: int) -> int
    decreases end,
{
    if end <= 0 {
        -1
    } else if name[end - 1] == '.' {
        end - 1
    } else {
        last_dot(name, end - 1)
    }
}

/// What stands behind the last dot of `name`, unless that dot is its first character.
pub open spec fn name_extension(name: Seq<char>) -> Option<Seq<char>> {
    let dot = last_dot(name, name.len() as int);
    if dot <= 0 {
        None
    } else {
        Some(name.skip(dot + 1))
    }
}

/// `name` without its extension and the dot before that.
pub open spec fn name_stem(name: Seq<char>) -> Seq<char> {
    let dot = last_dot(name, name.len() as int);
    if dot <= 0 {
        name
    } else {
        name.take(dot)
    }
}

/// The extension of the last name of `p`.
pub open spec fn extension(p: Seq<char>) -> Option<Seq<char>> {
    match file_name(p) {
        Some(name) => name_extension(name),
        None => None,
    }
}

/// The stem of the last name of `p`.
pub open spec fn file_stem(p: Seq<char>) -> Option<Seq<char>> {
    match file_name(p) {
        Some(name) => Some(name_stem(name)),
        None => None,
    }
}

/// The names of `p` up to `end`, in order.
pub open spec fn names(p: Seq<char>, end: int) -> Seq<Seq<char>>
    decreases end,
{
    let to = name_end(p, end);
    let from = name_from(p, to);
    if 0 <= from < to <= end && !is_start_dot(p, from, to) {
        names(p, from).push(p.subrange(from, to))
    } else {
        Seq::empty()
    }
}

/// What is in front of the names of `p` in one way of writing: a drive with a capital, and `\`.
pub open spec fn prefix(p: Seq<char>) -> Seq<char> {
    Seq::new(prefix_len(p) as nat, |i: int| prefix_char(p, i))
}

/// The character at `i` of that.
pub open spec fn prefix_char(p: Seq<char>, i: int) -> char {
    if is_verbatim(p) {
        if is_verbatim_share(p) && i == 7 {
            '\\'
        } else if !is_verbatim_share(p) && is_verbatim_drive(p) {
            ascii_upper(p[i])
        } else {
            p[i]
        }
    } else if is_local(p) {
        ascii_upper(p[i])
    } else if is_separator(p[i]) {
        '\\'
    } else {
        p[i]
    }
}

/// Whether `p` has a root: a separator behind its drive or in front of all names. A share and a
/// device always have one, unless they are written verbatim.
pub open spec fn is_rooted(p: Seq<char>) -> bool {
    (!is_verbatim(p) && !is_local(p)) || (p.len() > prefix_len(p) && is_separator(
        p[prefix_len(p)],
    ))
}

/// What a path stands for, however it is written.
#[verifier::ext_equal]
pub struct Place {
    pub verbatim: bool,
    pub prefix: Seq<char>,
    pub rooted: bool,
    pub names: Seq<Seq<char>>,
}

/// The place of `p`.
pub open spec fn place(p: Seq<char>) -> Place {
    Place {
        verbatim: is_verbatim(p),
        prefix: prefix(p),
        rooted: is_rooted(p),
        names: names(p, p.len() as int),
    }
}

/// Whether two paths stand for the same place.
pub open spec fn same_place(a: Seq<char>, b: Seq<char>) -> bool {
    place(a) == place(b)
}

/// The names behind `base` once those of `more` are followed: `.` stays, and `..` goes up, unless it
/// is not known where that is.
pub open spec fn followed(base: Seq<Seq<char>>, more: Seq<Seq<char>>) -> Seq<Seq<char>>
    decreases more.len(),
{
    if more.len() == 0 {
        base
    } else {
        let so_far = followed(base, more.drop_last());
        let name = more.last();
        if name == seq!['.'] {
            so_far
        } else if name == seq!['.', '.'] {
            if so_far.len() > 0 && !is_dots(so_far.last()) {
                so_far.drop_last()
            } else {
                so_far
            }
        } else {
            so_far.push(name)
        }
    }
}

/// `names` with a `\` in front of each.
pub open spec fn spelled(names: Seq<Seq<char>>) -> Seq<char>
    decreases names.len(),
{
    if names.len() == 0 {
        Seq::empty()
    } else {
        spelled(names.drop_last()).push('\\') + names.last()
    }
}

/// The names of the verbatim path `dir` with those of `name` behind them.
pub open spec fn verbatim_names(dir: Seq<char>, name: Seq<char>) -> Seq<Seq<char>> {
    followed(
        if is_separator(name[0]) {
            Seq::empty()
        } else {
            names(dir, dir.len() as int)
        },
        names(name, name.len() as int),
    )
}

/// The path of `name` under the verbatim path `dir`, written anew.
pub open spec fn verbatim_join(dir: Seq<char>, name: Seq<char>) -> Seq<char> {
    let all = verbatim_names(dir, name);
    let front = dir.take(prefix_len(dir));
    if all.len() == 0 && (is_rooted(dir) || is_separator(name[0])) {
        front.push('\\')
    } else {
        front + spelled(all)
    }
}

/// The path of `name` under `dir`: a name with a drive or share stands for itself, one that begins
/// with a separator keeps the drive or share of `dir` only.
pub open spec fn join(dir: Seq<char>, name: Seq<char>) -> Seq<char> {
    if prefix_len(name) > 0 {
        name
    } else if is_verbatim(dir) && name.len() > 0 {
        verbatim_join(dir, name)
    } else if name.len() > 0 && is_separator(name[0]) {
        dir.take(prefix_len(dir)) + name
    } else if dir.len() == drive_len(dir) || is_separator(dir.last()) {
        dir + name
    } else {
        dir.push('\\') + name
    }
}

proof fn separator_bounds(p: Seq<char>, from: int, strict: bool)
    requires
        0 <= from,
    ensures
        separator_from(p, from, strict) <= p.len(),
        from <= p.len() ==> from <= separator_from(p, from, strict),
    decreases p.len() - from,
{
    if from < p.len() {
        separator_bounds(p, from + 1, strict);
    }
}

proof fn prefix_bounds(p: Seq<char>)
    ensures
        0 <= prefix_len(p) <= p.len(),
{
    separator_bounds(p, 2, false);
    separator_bounds(p, 4, false);
    separator_bounds(p, 4, true);
    separator_bounds(p, 8, true);
    if p.len() >= 2 {
        separator_bounds(p, separator_from(p, 2, false) + 1, false);
    }
    if p.len() >= 8 {
        separator_bounds(p, separator_from(p, 8, true) + 1, true);
    }
}

proof fn bounds(p: Seq<char>, end: int)
    requires
        0 <= prefix_len(p) <= end <= p.len(),
    ensures
        prefix_len(p) <= before_separators(p, end) <= end,
        prefix_len(p) <= name_from(p, end) <= end,
        prefix_len(p) <= name_end(p, end) <= end,
    decreases end,
{
    if end > prefix_len(p) {
        bounds(p, end - 1);
    }
    let to = before_separators(p, end);
    if to < end {
        bounds(p, to);
    }
    let from = name_from(p, to);
    if from < to {
        bounds(p, from);
    }
}

fn separator(c: char) -> (yes: bool)
    ensures
        yes == is_separator(c),
{
    c == '\\' || c == '/'
}

fn letter(c: char) -> (yes: bool)
    ensures
        yes == is_letter(c),
{
    ('a' <= c && c <= 'z') || ('A' <= c && c <= 'Z')
}

fn drive_end(p: &[char]) -> (n: usize)
    ensures
        n == drive_len(p@),
        n <= p@.len(),
{
    if p.len() >= 2 && p[1] == ':' && letter(p[0]) {
        2
    } else {
        0
    }
}

fn find_separator(p: &[char], from: usize, strict: bool) -> (at: usize)
    requires
        from <= p@.len(),
    ensures
        at == separator_from(p@, from as int, strict),
        from <= at <= p@.len(),
{
    let mut at: usize = from;
    while at < p.len() && !(p[at] == '\\' || (!strict && p[at] == '/'))
        invariant
            from <= at <= p@.len(),
            separator_from(p@, at as int, strict) == separator_from(p@, from as int, strict),
        decreases p@.len() - at,
    {
        at += 1;
    }
    at
}

fn verbatim(p: &[char]) -> (yes: bool)
    ensures
        yes == is_verbatim(p@),
{
    p.len() >= 4 && p[0] == '\\' && p[1] == '\\' && p[2] == '?' && p[3] == '\\'
}

fn verbatim_share(p: &[char]) -> (yes: bool)
    ensures
        yes == is_verbatim_share(p@),
{
    p.len() >= 8 && p[4] == 'U' && p[5] == 'N' && p[6] == 'C' && separator(p[7])
}

fn verbatim_drive(p: &[char]) -> (yes: bool)
    ensures
        yes == is_verbatim_drive(p@),
{
    p.len() >= 6 && letter(p[4]) && p[5] == ':' && (p.len() == 6 || separator(p[6]))
}

fn verbatim_end(p: &[char]) -> (n: usize)
    requires
        is_verbatim(p@),
    ensures
        n == verbatim_len(p@),
        n <= p@.len(),
{
    if verbatim_share(p) {
        let server_end: usize = find_separator(p, 8, true);
        if server_end == p.len() {
            return server_end;
        }
        let end: usize = find_separator(p, server_end + 1, true);
        if server_end + 1 < end {
            end
        } else {
            server_end
        }
    } else if verbatim_drive(p) {
        6
    } else {
        find_separator(p, 4, true)
    }
}

fn device(p: &[char]) -> (yes: bool)
    ensures
        yes == is_device(p@),
{
    p.len() >= 4 && separator(p[0]) && separator(p[1]) && p[2] == '.' && separator(p[3])
}

fn share_end(p: &[char]) -> (n: usize)
    ensures
        n == share_len(p@),
        n <= p@.len(),
{
    if p.len() < 2 || !separator(p[0]) || !separator(p[1]) {
        return 0;
    }
    let server_end: usize = find_separator(p, 2, false);
    if server_end == 2 || server_end == p.len() {
        return 0;
    }
    let end: usize = find_separator(p, server_end + 1, false);
    if end == server_end + 1 {
        0
    } else {
        end
    }
}

fn prefix_end(p: &[char]) -> (n: usize)
    ensures
        n == prefix_len(p@),
        n <= p@.len(),
{
    if verbatim(p) {
        return verbatim_end(p);
    }
    if device(p) {
        return find_separator(p, 4, false);
    }
    let share: usize = share_end(p);
    if share > 0 {
        share
    } else {
        drive_end(p)
    }
}

fn local(p: &[char]) -> (yes: bool)
    ensures
        yes == is_local(p@),
{
    !verbatim(p) && !device(p) && share_end(p) == 0
}

fn is_between(p: &[char], i: usize, body: usize) -> (yes: bool)
    requires
        i < p@.len(),
        body == prefix_len(p@),
    ensures
        yes == separates(p@, i as int),
{
    p[i] == '\\' || (p[i] == '/' && (!verbatim(p) || i == body))
}

fn skip_separators(p: &[char], end: usize) -> (e: usize)
    requires
        prefix_len(p@) <= end <= p@.len(),
    ensures
        e == before_separators(p@, end as int),
        prefix_len(p@) <= e <= end,
{
    let body: usize = prefix_end(p);
    let mut e: usize = end;
    while e > body && is_between(p, e - 1, body)
        invariant
            body == prefix_len(p@),
            body <= e <= end <= p@.len(),
            before_separators(p@, e as int) == before_separators(p@, end as int),
        decreases e,
    {
        e -= 1;
    }
    e
}

fn skip_name(p: &[char], end: usize) -> (e: usize)
    requires
        prefix_len(p@) <= end <= p@.len(),
    ensures
        e == name_from(p@, end as int),
        prefix_len(p@) <= e <= end,
{
    let body: usize = prefix_end(p);
    let mut e: usize = end;
    while e > body && !is_between(p, e - 1, body)
        invariant
            body == prefix_len(p@),
            body <= e <= end <= p@.len(),
            name_from(p@, e as int) == name_from(p@, end as int),
        decreases e,
    {
        e -= 1;
    }
    e
}

fn find_name_end(p: &[char], end: usize) -> (e: usize)
    requires
        prefix_len(p@) <= end <= p@.len(),
    ensures
        e == name_end(p@, end as int),
        prefix_len(p@) <= e <= end,
{
    let body: usize = prefix_end(p);
    let mut e: usize = end;
    loop
        invariant
            body == prefix_len(p@),
            body <= e <= end <= p@.len(),
            name_end(p@, e as int) == name_end(p@, end as int),
        decreases e,
    {
        let to: usize = skip_separators(p, e);
        let from: usize = skip_name(p, to);
        if !verbatim(p) && body < from && to - from == 1 && p[from] == '.' {
            e = from;
        } else {
            return to;
        }
    }
}

fn start_dot(p: &[char], from: usize, to: usize) -> (yes: bool)
    requires
        from <= to <= p@.len(),
    ensures
        yes == is_start_dot(p@, from as int, to as int),
{
    !verbatim(p) && 0 < from && to - from == 1 && p[from] == '.' && from == prefix_end(p)
}

/// Which of the two `name` is, if it is `.` or `..`.
fn dots(name: &[char]) -> (n: Option<bool>)
    ensures
        n == Some(false) <==> name@ == seq!['.'],
        n == Some(true) <==> name@ == seq!['.', '.'],
        n is Some <==> is_dots(name@),
{
    let one: bool = name.len() == 1 && name[0] == '.';
    let two: bool = name.len() == 2 && name[0] == '.' && name[1] == '.';
    proof {
        let (a, b) = (seq!['.'], seq!['.', '.']);
        assert(a.len() == 1 && a[0] == '.');
        assert(b.len() == 2 && b[0] == '.' && b[1] == '.');
        assert(one ==> name@ =~= a);
        assert(two ==> name@ =~= b);
    }
    if one {
        Some(false)
    } else if two {
        Some(true)
    } else {
        None
    }
}

fn dots_of(name: &str) -> (n: Option<bool>)
    ensures
        n == Some(false) <==> name@ == seq!['.'],
        n == Some(true) <==> name@ == seq!['.', '.'],
        n is Some <==> is_dots(name@),
{
    let chars = chars_of(name);
    dots(chars.as_slice())
}

/// See [`file_name`].
pub fn file_name_of(p: &str) -> (name: Option<String>)
    ensures
        match name {
            Some(name) => file_name(p@) == Some(name@),
            None => file_name(p@) is None,
        },
{
    let chars = chars_of(p);
    proof {
        prefix_bounds(p@);
        bounds(p@, p@.len() as int);
    }
    let end: usize = find_name_end(chars.as_slice(), chars.len());
    let from: usize = skip_name(chars.as_slice(), end);
    let name = text_between(chars.as_slice(), from, end);
    if from == end || dots_of(name.as_str()).is_some() {
        None
    } else {
        Some(name)
    }
}

/// See [`parent`].
pub fn parent_of(p: &str) -> (dir: Option<String>)
    ensures
        match dir {
            Some(dir) => parent(p@) == Some(dir@),
            None => parent(p@) is None,
        },
{
    let chars = chars_of(p);
    proof {
        prefix_bounds(p@);
        bounds(p@, p@.len() as int);
    }
    let end: usize = find_name_end(chars.as_slice(), chars.len());
    let from: usize = skip_name(chars.as_slice(), end);
    if from == end || start_dot(chars.as_slice(), from, end) {
        return None;
    }
    let body: usize = prefix_end(chars.as_slice());
    let cut: usize = find_name_end(chars.as_slice(), from);
    let to: usize = if cut == body && cut < from {
        cut + 1
    } else {
        cut
    };
    assert(p@.take(to as int) == p@.subrange(0, to as int));
    Some(text_between(chars.as_slice(), 0, to))
}

fn dot_of(name: &[char]) -> (dot: usize)
    ensures
        last_dot(name@, name@.len() as int) <= 0 ==> dot == 0,
        last_dot(name@, name@.len() as int) > 0 ==> dot == last_dot(
            name@,
            name@.len() as int,
        ) && dot < name@.len(),
{
    let mut end: usize = name.len();
    while end > 0 && name[end - 1] != '.'
        invariant
            end <= name@.len(),
            last_dot(name@, end as int) == last_dot(name@, name@.len() as int),
        decreases end,
    {
        end -= 1;
    }
    if end == 0 {
        0
    } else {
        end - 1
    }
}

/// See [`extension`].
pub fn extension_of(p: &str) -> (ext: Option<String>)
    ensures
        match ext {
            Some(ext) => extension(p@) == Some(ext@),
            None => extension(p@) is None,
        },
{
    match file_name_of(p) {
        Some(name) => extension_of_name(name.as_str()),
        None => None,
    }
}

/// See [`file_stem`].
pub fn file_stem_of(p: &str) -> (stem: Option<String>)
    ensures
        match stem {
            Some(stem) => file_stem(p@) == Some(stem@),
            None => file_stem(p@) is None,
        },
{
    match file_name_of(p) {
        Some(name) => Some(stem_of_name(name.as_str())),
        None => None,
    }
}

/// See [`name_stem`].
pub fn stem_of_name(name: &str) -> (stem: String)
    ensures
        stem@ == name_stem(name@),
{
    let chars = chars_of(name);
    let dot: usize = dot_of(chars.as_slice());
    if dot == 0 {
        text_between(chars.as_slice(), 0, chars.len())
    } else {
        assert(name@.take(dot as int) == name@.subrange(0, dot as int));
        text_between(chars.as_slice(), 0, dot)
    }
}

/// See [`name_extension`].
pub fn extension_of_name(name: &str) -> (ext: Option<String>)
    ensures
        match ext {
            Some(ext) => name_extension(name@) == Some(ext@),
            None => name_extension(name@) is None,
        },
{
    let chars = chars_of(name);
    let dot: usize = dot_of(chars.as_slice());
    if dot == 0 {
        None
    } else {
        let n: usize = chars.len();
        assert(name@.skip(dot + 1) == name@.subrange(dot + 1, n as int));
        Some(text_between(chars.as_slice(), dot + 1, n))
    }
}

fn names_of(p: &str) -> (out: Vec<String>)
    ensures
        views(out@) == names(p@, p@.len() as int),
{
    let chars = chars_of(p);
    let mut out: Vec<String> = Vec::new();
    let mut end: usize = chars.len();
    proof {
        prefix_bounds(p@);
        assert(names(p@, p@.len() as int) + views(out@) =~= names(p@, p@.len() as int));
    }
    loop
        invariant
            chars@ == p@,
            prefix_len(p@) <= end <= p@.len(),
            names(p@, end as int) + views(out@) == names(p@, p@.len() as int),
        decreases end,
    {
        let to: usize = find_name_end(chars.as_slice(), end);
        let from: usize = skip_name(chars.as_slice(), to);
        if from == to || start_dot(chars.as_slice(), from, to) {
            assert(names(p@, end as int) + views(out@) =~= views(out@));
            return out;
        }
        let name = text_between(chars.as_slice(), from, to);
        let ghost before = views(out@);
        let ghost text = name@;
        out.insert(0, name);
        proof {
            assert(views(out@) =~= seq![text] + before);
            assert(names(p@, from as int) + (seq![text] + before) =~= names(p@, end as int)
                + before);
        }
        end = from;
    }
}

fn follow(base: Vec<String>, more: &Vec<String>) -> (out: Vec<String>)
    ensures
        views(out@) == followed(views(base@), views(more@)),
{
    let mut out: Vec<String> = base;
    let ghost all = views(more@);
    assert(all.take(0) =~= Seq::empty());
    for i in 0..more.len()
        invariant
            all == views(more@),
            views(out@) == followed(views(base@), all.take(i as int)),
    {
        let ghost before = views(out@);
        proof {
            assert(all.take(i + 1).drop_last() =~= all.take(i as int));
            assert(all.take(i + 1).last() == more@[i as int]@);
        }
        match dots_of(more[i].as_str()) {
            Some(up) => {
                if up && out.len() > 0 && dots_of(out[out.len() - 1].as_str()).is_none() {
                    assert(before.last() == out@[out@.len() - 1]@);
                    out.pop();
                    assert(views(out@) =~= before.drop_last());
                }
                proof {
                    let (a, b) = (seq!['.'], seq!['.', '.']);
                    assert(a.len() != b.len());
                }
            },
            None => {
                out.push(owned(more[i].as_str()));
                assert(views(out@) =~= before.push(more@[i as int]@));
            },
        }
    }
    assert(all.take(all.len() as int) =~= all);
    out
}

fn spell(names: &Vec<String>) -> (text: String)
    ensures
        text@ == spelled(views(names@)),
{
    let mut text = owned("");
    let ghost all = views(names@);
    proof {
        reveal_strlit("");
        assert(all.take(0) =~= Seq::empty());
        assert(text@ =~= Seq::empty());
    }
    for i in 0..names.len()
        invariant
            all == views(names@),
            text@ == spelled(all.take(i as int)),
    {
        proof {
            assert(all.take(i + 1).drop_last() =~= all.take(i as int));
            assert(all.take(i + 1).last() == names@[i as int]@);
        }
        text.push('\\');
        text.append(names[i].as_str());
    }
    assert(all.take(all.len() as int) =~= all);
    text
}

fn joined_verbatim(dir: &str, name: &str) -> (path: String)
    requires
        name@.len() > 0,
    ensures
        path@ == verbatim_join(dir@, name@),
{
    let d = chars_of(dir);
    let n = chars_of(name);
    let rooted: bool = separator(n[0]);
    let base: Vec<String> = if rooted {
        Vec::new()
    } else {
        names_of(dir)
    };
    proof {
        if rooted {
            assert(views(base@) =~= Seq::empty());
        }
    }
    let more = names_of(name);
    let all = follow(base, &more);
    let body: usize = prefix_end(d.as_slice());
    let mut path = text_between(d.as_slice(), 0, body);
    assert(dir@.take(body as int) == dir@.subrange(0, body as int));
    if all.len() == 0 && (has_root(d.as_slice()) || rooted) {
        path.push('\\');
    } else {
        let names = spell(&all);
        path.append(names.as_str());
    }
    path
}

/// See [`join`].
pub fn joined(dir: &str, name: &str) -> (path: String)
    ensures
        path@ == join(dir@, name@),
{
    let d = chars_of(dir);
    let n = chars_of(name);
    let dir_drive: usize = drive_end(d.as_slice());
    if prefix_end(n.as_slice()) > 0 {
        return name.to_owned();
    }
    if verbatim(d.as_slice()) && n.len() > 0 {
        return joined_verbatim(dir, name);
    }
    if n.len() > 0 && separator(n[0]) {
        let body: usize = prefix_end(d.as_slice());
        let mut path = text_between(d.as_slice(), 0, body);
        assert(dir@.take(body as int) == dir@.subrange(0, body as int));
        path.append(name);
        return path;
    }
    let mut path = dir.to_owned();
    if d.len() != dir_drive && !separator(d[d.len() - 1]) {
        path.push('\\');
    }
    path.append(name);
    path
}

fn prefix_char_of(p: &[char], i: usize) -> (c: char)
    requires
        i < p@.len(),
    ensures
        c == prefix_char(p@, i as int),
{
    if verbatim(p) {
        if verbatim_share(p) {
            if i == 7 {
                '\\'
            } else {
                p[i]
            }
        } else if verbatim_drive(p) {
            to_ascii_upper(p[i])
        } else {
            p[i]
        }
    } else if local(p) {
        to_ascii_upper(p[i])
    } else if separator(p[i]) {
        '\\'
    } else {
        p[i]
    }
}

fn has_same_prefix(p: &[char], q: &[char]) -> (same: bool)
    ensures
        same == (prefix(p@) == prefix(q@)),
{
    let n: usize = prefix_end(p);
    let ghost a = prefix(p@);
    let ghost b = prefix(q@);
    if n != prefix_end(q) {
        assert(a.len() != b.len());
        return false;
    }
    for i in 0..n
        invariant
            n == prefix_len(p@) == prefix_len(q@),
            n <= p@.len(),
            n <= q@.len(),
            a == prefix(p@),
            b == prefix(q@),
            forall|k: int| 0 <= k < i ==> a[k] == b[k],
    {
        let c = prefix_char_of(p, i);
        let d = prefix_char_of(q, i);
        assert(a[i as int] == c && b[i as int] == d);
        if c != d {
            return false;
        }
    }
    assert(a =~= b);
    true
}

fn has_root(p: &[char]) -> (yes: bool)
    ensures
        yes == is_rooted(p@),
{
    let body: usize = prefix_end(p);
    (!verbatim(p) && !local(p)) || (p.len() > body && separator(p[body]))
}

/// See [`same_place`].
pub fn is_same_place(a: &str, b: &str) -> (same: bool)
    ensures
        same == same_place(a@, b@),
{
    let p = chars_of(a);
    let q = chars_of(b);
    if verbatim(p.as_slice()) != verbatim(q.as_slice()) || !has_same_prefix(
        p.as_slice(),
        q.as_slice(),
    ) || has_root(p.as_slice()) != has_root(q.as_slice()) {
        return false;
    }
    proof {
        prefix_bounds(a@);
        prefix_bounds(b@);
    }
    let mut i: usize = p.len();
    let mut j: usize = q.len();
    loop
        invariant
            p@ == a@,
            q@ == b@,
            prefix_len(a@) <= i <= a@.len(),
            prefix_len(b@) <= j <= b@.len(),
            same_place(a@, b@) == (names(a@, i as int) == names(b@, j as int)),
        decreases i,
    {
        let p_to: usize = find_name_end(p.as_slice(), i);
        let q_to: usize = find_name_end(q.as_slice(), j);
        let p_from: usize = skip_name(p.as_slice(), p_to);
        let q_from: usize = skip_name(q.as_slice(), q_to);
        let p_done: bool = p_from == p_to || start_dot(p.as_slice(), p_from, p_to);
        let q_done: bool = q_from == q_to || start_dot(q.as_slice(), q_from, q_to);
        if p_done || q_done {
            proof {
                if names(a@, i as int) == names(b@, j as int) {
                    assert(names(a@, i as int).len() == names(b@, j as int).len());
                }
            }
            return p_done && q_done;
        }
        let left = text_between(p.as_slice(), p_from, p_to);
        let right = text_between(q.as_slice(), q_from, q_to);
        proof {
            assert(names(a@, i as int).drop_last() == names(a@, p_from as int));
            assert(names(b@, j as int).drop_last() == names(b@, q_from as int));
            assert(names(a@, i as int).last() == left@);
            assert(names(b@, j as int).last() == right@);
        }
        if left != right {
            return false;
        }
        i = p_from;
        j = q_from;
    }
}

// ---------- what joining keeps ----------

/// Whether `n` can name something in a folder: it is no `.` or `..`, and holds neither a separator
/// nor a colon.
pub open spec fn is_plain(n: Seq<char>) -> bool {
    &&& n.len() > 0
    &&& !is_dots(n)
    &&& forall|i: int| 0 <= i < n.len() ==> !is_separator(#[trigger] n[i]) && n[i] != ':'
}

/// Whether a name behind `d` is a name in it: in front of the names of `d` nothing is missing that
/// the name would be taken for, such as the share of a server.
pub open spec fn takes_names(d: Seq<char>) -> bool {
    if is_verbatim(d) {
        let server_end = separator_from(d, 8, true);
        if is_verbatim_share(d) {
            server_end + 1 < separator_from(d, server_end + 1, true)
        } else {
            !(d.len() == 7 && d[4] == 'U' && d[5] == 'N' && d[6] == 'C')
        }
    } else if is_device(d) {
        d.len() > 4
    } else if share_len(d) == 0 && is_remote(d) {
        let server_end = separator_from(d, 2, false);
        d.len() == 2 || server_end == 2 || server_end + 1 < d.len()
    } else {
        true
    }
}

/// Whether `q` begins with the first `n` characters of `p`.
spec fn agree(p: Seq<char>, q: Seq<char>, n: int) -> bool {
    &&& 0 <= n <= p.len()
    &&& n <= q.len()
    &&& forall|i: int|
        #![trigger p[i]]
        #![trigger q[i]]
        0 <= i < n ==> p[i] == q[i]
}

proof fn separator_is_first(p: Seq<char>, from: int, at: int, strict: bool)
    requires
        0 <= from <= at <= p.len(),
        forall|i: int|
            from <= i < at ==> (#[trigger] p[i]) != '\\' && (strict || p[i] != '/'),
        at < p.len() ==> p[at] == '\\' || (!strict && p[at] == '/'),
    ensures
        separator_from(p, from, strict) == at,
    decreases at - from,
{
    if from < at {
        separator_is_first(p, from + 1, at, strict);
    }
}

proof fn separator_is_there(p: Seq<char>, from: int, strict: bool)
    requires
        0 <= from <= p.len(),
    ensures
        ({
            let at = separator_from(p, from, strict);
            &&& from <= at <= p.len()
            &&& forall|i: int|
                from <= i < at ==> (#[trigger] p[i]) != '\\' && (strict || p[i] != '/')
            &&& at < p.len() ==> p[at] == '\\' || (!strict && p[at] == '/')
        }),
    decreases p.len() - from,
{
    if from < p.len() && !(p[from] == '\\' || (!strict && p[from] == '/')) {
        separator_is_there(p, from + 1, strict);
    }
}

/// A separator that is there in `p` is there in a text that agrees with `p` so far.
proof fn separator_stays(p: Seq<char>, q: Seq<char>, n: int, from: int, strict: bool)
    requires
        agree(p, q, n),
        0 <= from <= n,
        separator_from(p, from, strict) < n || (separator_from(p, from, strict) == n && (q.len()
            == n || q[n] == '\\' || (!strict && q[n] == '/'))),
    ensures
        separator_from(q, from, strict) == separator_from(p, from, strict),
{
    separator_is_there(p, from, strict);
    separator_is_first(q, from, separator_from(p, from, strict), strict);
}

/// What is in front of the names stays where the names are cut off.
proof fn prefix_of_take(p: Seq<char>, k: int)
    requires
        prefix_len(p) <= k <= p.len(),
    ensures
        prefix_len(p.take(k)) == prefix_len(p),
        is_verbatim(p.take(k)) == is_verbatim(p),
        prefix(p.take(k)) == prefix(p),
        is_local(p.take(k)) == is_local(p),
{
    let q = p.take(k);
    prefix_bounds(p);
    assert(agree(p, q, k));
    if is_verbatim(p) {
        separator_is_there(p, 4, true);
        if is_verbatim_share(p) {
            separator_is_there(p, 8, true);
            let s = separator_from(p, 8, true);
            assert(s <= k);
            separator_stays(p, q, k, 8, true);
            if s < p.len() {
                separator_is_there(p, s + 1, true);
                let e = separator_from(p, s + 1, true);
                if s + 1 < e {
                    separator_stays(p, q, k, s + 1, true);
                } else if s + 1 <= k {
                    separator_is_first(q, s + 1, s + 1, true);
                } else {
                    separator_bounds(q, s + 1, true);
                }
            } else {
                separator_bounds(q, s + 1, true);
            }
        } else if is_verbatim_drive(p) {
        } else {
            separator_stays(p, q, k, 4, true);
            if is_verbatim_drive(q) {
                assert(p[4] != '\\' && p[5] != '\\');
                assert(false);
            }
        }
    } else if is_device(p) {
        separator_is_there(p, 4, false);
        separator_stays(p, q, k, 4, false);
    } else if is_remote(p) && k >= 2 {
        separator_is_there(p, 2, false);
        let s = separator_from(p, 2, false);
        if s < p.len() {
            separator_is_there(p, s + 1, false);
        }
        if share_len(p) > 0 {
            separator_stays(p, q, k, 2, false);
            separator_stays(p, q, k, s + 1, false);
        } else {
            separator_is_there(q, 2, false);
            let r = separator_from(q, 2, false);
            if s < k {
                separator_stays(p, q, k, 2, false);
                if s + 1 < k {
                    if 2 < s {
                        separator_bounds(p, s + 1, false);
                        separator_is_first(q, s + 1, s + 1, false);
                    }
                } else {
                    separator_bounds(q, s + 1, false);
                }
            } else {
                separator_is_first(q, 2, k, false);
                separator_bounds(q, k + 1, false);
            }
        }
    }
    assert(is_device(q) == is_device(p));
    assert(is_local(q) == is_local(p));
    assert(prefix_len(q) == prefix_len(p));
    assert forall|i: int| 0 <= i < prefix_len(p) implies prefix_char(q, i) == prefix_char(
        p,
        i,
    ) by {}
    assert(prefix(q) =~= prefix(p));
}

/// Where two texts agree, and have the same in front, their names are the same.
proof fn names_agree(p: Seq<char>, q: Seq<char>, n: int, end: int)
    requires
        agree(p, q, n),
        is_verbatim(p) == is_verbatim(q),
        prefix_len(p) == prefix_len(q),
        0 <= prefix_len(p) <= end <= n,
    ensures
        before_separators(p, end) == before_separators(q, end),
        name_from(p, end) == name_from(q, end),
        name_end(p, end) == name_end(q, end),
        names(p, end) == names(q, end),
    decreases end,
{
    bounds(p, end);
    bounds(q, end);
    if end > prefix_len(p) {
        assert(p[end - 1] == q[end - 1]);
        names_agree(p, q, n, end - 1);
    }
    let to = before_separators(p, end);
    if to < end {
        names_agree(p, q, n, to);
        bounds(p, to);
    }
    let from = name_from(p, to);
    assert(name_from(q, to) == from);
    if from < to {
        bounds(p, to);
        assert(p[from] == q[from]);
        names_agree(p, q, n, from);
    }
    let e = name_end(p, end);
    assert(name_end(q, end) == e);
    if e < end {
        names_agree(p, q, n, e);
    }
    bounds(p, e);
    let f = name_from(p, e);
    assert(name_from(q, e) == f);
    if f < e {
        assert(p[f] == q[f]);
        names_agree(p, q, n, f);
        assert(p.subrange(f, e) =~= q.subrange(f, e));
    }
}

/// Where a name ends, it ends.
proof fn name_end_is_an_end(p: Seq<char>, end: int)
    requires
        0 <= prefix_len(p) <= end <= p.len(),
    ensures
        name_end(p, name_end(p, end)) == name_end(p, end),
        prefix_len(p) < name_end(p, end) ==> !separates(p, name_end(p, end) - 1),
        name_end(p, end) == prefix_len(p) < end ==> separates(p, prefix_len(p)),
    decreases end,
{
    bounds(p, end);
    let to = before_separators(p, end);
    separators_between(p, end);
    let from = name_from(p, to);
    bounds(p, to);
    if !is_verbatim(p) && prefix_len(p) < from && from + 1 == to && p[from] == '.' {
        name_end_is_an_end(p, from);
    } else if to > prefix_len(p) {
        assert(before_separators(p, to) == to);
    }
}

proof fn separators_between(p: Seq<char>, end: int)
    requires
        0 <= prefix_len(p) <= end <= p.len(),
    ensures
        ({
            let to = before_separators(p, end);
            &&& prefix_len(p) <= to <= end
            &&& forall|i: int| to <= i < end ==> #[trigger] separates(p, i)
            &&& to > prefix_len(p) ==> !separates(p, to - 1)
        }),
    decreases end,
{
    if end > prefix_len(p) && separates(p, end - 1) {
        separators_between(p, end - 1);
    }
}

/// A name that is set apart is found.
proof fn name_is_found(p: Seq<char>, from: int, to: int)
    requires
        0 <= prefix_len(p) <= from <= to <= p.len(),
        forall|i: int| from <= i < to ==> !#[trigger] separates(p, i),
        from > prefix_len(p) ==> separates(p, from - 1),
    ensures
        name_from(p, to) == from,
    decreases to - from,
{
    if from < to {
        assert(!separates(p, to - 1));
        name_is_found(p, from, to - 1);
    }
}

/// The last name, where it is no dots, is the file name, and what is before it is the parent.
proof fn last_name(p: Seq<char>, from: int)
    requires
        0 <= prefix_len(p) <= from < p.len(),
        forall|i: int| from <= i < p.len() ==> !#[trigger] separates(p, i),
        from > prefix_len(p) ==> separates(p, from - 1),
        !is_dots(p.skip(from)),
    ensures
        name_end(p, p.len() as int) == p.len(),
        name_from(p, p.len() as int) == from,
        file_name(p) == Some(p.skip(from)),
        names(p, p.len() as int) == names(p, from).push(p.skip(from)),
        parent(p) is Some,
{
    let n = p.len() as int;
    name_is_found(p, from, n);
    assert(!separates(p, n - 1));
    assert(before_separators(p, n) == n);
    assert(p.subrange(from, n) =~= p.skip(from));
    if from + 1 == n && p[from] == '.' {
        assert(p.skip(from) =~= seq!['.']);
        assert(false);
    }
}

/// The parent of `p` stands where the names of `p` but the last stand.
proof fn parent_keeps_names(p: Seq<char>, from: int)
    requires
        0 <= prefix_len(p) <= from < p.len(),
        forall|i: int| from <= i < p.len() ==> !#[trigger] separates(p, i),
        from > prefix_len(p) ==> separates(p, from - 1),
        !is_dots(p.skip(from)),
    ensures
        parent(p) is Some,
        ({
            let q = parent(p)->0;
            &&& is_verbatim(q) == is_verbatim(p)
            &&& prefix(q) == prefix(p)
            &&& is_rooted(q) == is_rooted(p)
            &&& names(q, q.len() as int) == names(p, from)
        }),
{
    last_name(p, from);
    bounds(p, from);
    let cut = name_end(p, from);
    name_end_is_an_end(p, from);
    let k = if cut == prefix_len(p) && cut < from {
        cut + 1
    } else {
        cut
    };
    let q = p.take(k);
    assert(parent(p) == Some(q));
    prefix_of_take(p, k);
    assert(agree(p, q, k));
    names_agree(p, q, k, k);
    names_agree(p, q, k, cut);
    if k > cut {
        assert(separates(q, cut));
        assert(before_separators(q, cut) == cut);
        assert(before_separators(q, k) == cut);
    }
    bounds(p, cut);
    assert(names(p, from) == names(p, cut));
    assert(names(q, k) == names(q, cut));
    if prefix_len(p) < k {
        assert(q[prefix_len(p)] == p[prefix_len(p)]);
    } else if from > prefix_len(p) {
        assert(false);
    } else {
        assert(!separates(p, from));
        assert(is_separator(p[from]) ==> separates(p, from));
    }
}

proof fn plain_has_no_prefix(n: Seq<char>)
    requires
        is_plain(n),
    ensures
        prefix_len(n) == 0,
        !is_verbatim(n),
        !is_separator(n[0]),
        names(n, n.len() as int) == seq![n],
{
    assert(!is_separator(n[0]));
    if n.len() >= 2 {
        assert(n[1] != ':');
    }
    assert(prefix_len(n) == 0);
    assert forall|i: int| 0 <= i < n.len() implies !#[trigger] separates(n, i) by {
        assert(!is_separator(n[i]));
    }
    assert(n.skip(0) =~= n);
    last_name(n, 0);
    assert(names(n, 0) =~= Seq::empty());
    assert(names(n, n.len() as int) =~= seq![n]);
}

proof fn joining_keeps_the_prefix(d: Seq<char>, n: Seq<char>)
    requires
        !is_verbatim(d),
        takes_names(d),
        is_plain(n),
    ensures
        ({
            let j = join(d, n);
            &&& !is_verbatim(j)
            &&& prefix_len(j) == prefix_len(d)
            &&& prefix(j) == prefix(d)
            &&& is_local(j) == is_local(d)
            &&& is_rooted(j) == is_rooted(d)
        }),
{
    plain_has_no_prefix(n);
    let j = join(d, n);
    let m = d.len() as int;
    prefix_bounds(d);
    assert(agree(d, j, m));
    let from = j.len() - n.len();
    assert forall|i: int| from <= i < j.len() implies !is_separator(#[trigger] j[i]) && j[i]
        != ':' by {
        assert(j[i] == n[i - from]);
    }
    assert(from > m ==> j[m] == '\\');
    separator_bounds(d, 2, false);
    if m == 3 && is_remote(d) && !is_separator(d[2]) {
        separator_is_first(d, 2, 3, false);
    }
    assert(!is_verbatim(j));
    assert(is_device(j) == is_device(d));
    if is_device(d) {
        separator_is_there(d, 4, false);
        separator_stays(d, j, m, 4, false);
    } else if is_remote(d) {
        separator_is_there(d, 2, false);
        let s = separator_from(d, 2, false);
        if share_len(d) > 0 {
            separator_stays(d, j, m, 2, false);
            separator_is_there(d, s + 1, false);
            separator_stays(d, j, m, s + 1, false);
        } else if m == 2 {
            separator_is_first(j, 2, j.len() as int, false);
            separator_bounds(j, j.len() as int + 1, false);
        } else {
            separator_stays(d, j, m, 2, false);
            if s != 2 {
                separator_is_there(d, s + 1, false);
                separator_is_first(j, s + 1, s + 1, false);
            }
        }
        assert(share_len(j) == share_len(d));
    } else {
        assert(!is_remote(j));
    }
    assert(prefix_len(j) == prefix_len(d));
    assert forall|i: int| 0 <= i < prefix_len(d) implies prefix_char(j, i) == prefix_char(
        d,
        i,
    ) by {}
    assert(prefix(j) =~= prefix(d));
    if prefix_len(d) < m {
        assert(j[prefix_len(d)] == d[prefix_len(d)]);
    }
}

proof fn verbatim_text(d: Seq<char>, all: Seq<Seq<char>>)
    requires
        is_verbatim(d),
        takes_names(d),
        all.len() > 0,
    ensures
        ({
            let j = d.take(prefix_len(d)) + spelled(all);
            &&& is_verbatim(j)
            &&& prefix_len(j) == prefix_len(d)
            &&& prefix(j) == prefix(d)
            &&& j.len() > prefix_len(d)
            &&& j[prefix_len(d)] == '\\'
            &&& takes_names(j)
        }),
{
    prefix_bounds(d);
    let k = prefix_len(d);
    let j = d.take(k) + spelled(all);
    spelled_begins(all);
    assert(agree(d, j, k));
    assert(j[k] == spelled(all)[0]);
    separator_is_there(d, 4, true);
    if is_verbatim_share(d) {
        separator_is_there(d, 8, true);
        let s = separator_from(d, 8, true);
        separator_is_there(d, s + 1, true);
        separator_stays(d, j, k, 8, true);
        separator_stays(d, j, k, s + 1, true);
    } else if is_verbatim_drive(d) {
    } else {
        assert(k < d.len() ==> d[k] == '\\');
        separator_stays(d, j, k, 4, true);
        assert(!is_verbatim_share(j)) by {
            if is_verbatim_share(j) {
                assert(k >= 7);
                assert(d[4] == 'U' && d[5] == 'N' && d[6] == 'C');
                if k > 7 {
                    assert(d[7] == j[7]);
                }
            }
        }
        assert(!is_verbatim_drive(j)) by {
            if is_verbatim_drive(j) {
                assert(k >= 6);
                if k > 6 {
                    assert(d[6] == j[6]);
                }
            }
        }
    }
    assert(prefix_len(j) == k);
    assert forall|i: int| 0 <= i < k implies prefix_char(j, i) == prefix_char(d, i) by {}
    assert(prefix(j) =~= prefix(d));
}

proof fn spelled_begins(all: Seq<Seq<char>>)
    requires
        all.len() > 0,
    ensures
        spelled(all).len() > 0,
        spelled(all)[0] == '\\',
    decreases all.len(),
{
    let before = spelled(all.drop_last());
    if all.len() > 1 {
        spelled_begins(all.drop_last());
    } else {
        assert(before.len() == 0);
    }
    assert(spelled(all)[0] == before.push('\\')[0]);
}

/// Whether a name can stand in a verbatim path.
spec fn is_verbatim_name(n: Seq<char>) -> bool {
    n.len() > 0 && forall|i: int| 0 <= i < n.len() ==> #[trigger] n[i] != '\\'
}

proof fn verbatim_names_are_names(p: Seq<char>, end: int)
    requires
        is_verbatim(p),
        0 <= prefix_len(p) <= end <= p.len(),
    ensures
        forall|i: int|
            0 <= i < names(p, end).len() ==> is_verbatim_name(#[trigger] names(p, end)[i]),
    decreases end,
{
    bounds(p, end);
    let to = name_end(p, end);
    bounds(p, to);
    let from = name_from(p, to);
    if from < to {
        verbatim_names_are_names(p, from);
        name_holds_no_separator(p, to);
        let name = p.subrange(from, to);
        assert forall|i: int| 0 <= i < name.len() implies #[trigger] name[i] != '\\' by {
            assert(!separates(p, from + i));
        }
        let all = names(p, end);
        let before = names(p, from);
        assert(all == before.push(name));
        assert forall|i: int| 0 <= i < all.len() implies is_verbatim_name(#[trigger] all[i]) by {
            if i < before.len() {
                assert(all[i] == before[i]);
            }
        }
    }
}

proof fn name_holds_no_separator(p: Seq<char>, to: int)
    requires
        0 <= prefix_len(p) <= to <= p.len(),
    ensures
        forall|i: int| name_from(p, to) <= i < to ==> !#[trigger] separates(p, i),
    decreases to,
{
    if to > prefix_len(p) && !separates(p, to - 1) {
        name_holds_no_separator(p, to - 1);
    }
}

/// What stands behind a separator is a name more.
proof fn one_more_name(p: Seq<char>, from: int, end: int)
    requires
        is_verbatim(p),
        0 <= prefix_len(p) < from < end <= p.len(),
        p[from - 1] == '\\',
        forall|i: int| from <= i < end ==> #[trigger] p[i] != '\\',
    ensures
        names(p, end) == names(p, from - 1).push(p.subrange(from, end)),
        names(p, from) == names(p, from - 1),
{
    assert forall|i: int| from <= i < end implies !#[trigger] separates(p, i) by {
        assert(p[i] != '\\');
    }
    name_is_found(p, from, end);
    assert(!separates(p, end - 1));
    assert(before_separators(p, end) == end);
    assert(separates(p, from - 1));
    assert(before_separators(p, from) == before_separators(p, from - 1));
    assert(name_end(p, from) == name_end(p, from - 1));
    bounds(p, from - 1);
    assert(names(p, from) == names(p, from - 1));
    assert(name_end(p, end) == end);
    assert(names(p, end) == names(p, from).push(p.subrange(from, end)));
}

/// The names that a verbatim path was spelled from are its names.
proof fn spelled_names(j: Seq<char>, all: Seq<Seq<char>>)
    requires
        is_verbatim(j),
        0 <= prefix_len(j),
        forall|i: int| 0 <= i < all.len() ==> is_verbatim_name(#[trigger] all[i]),
        prefix_len(j) + spelled(all).len() <= j.len(),
        j.subrange(prefix_len(j), prefix_len(j) + spelled(all).len()) == spelled(all),
    ensures
        names(j, prefix_len(j) + spelled(all).len()) == all,
    decreases all.len(),
{
    let k = prefix_len(j);
    let text = spelled(all);
    let end = k + text.len();
    if all.len() == 0 {
        assert(names(j, end) =~= all);
    } else {
        let name = all.last();
        let before = spelled(all.drop_last());
        let from = end - name.len();
        assert(text == before.push('\\') + name);
        assert(is_verbatim_name(all[all.len() - 1]));
        assert(j[from - 1] == text[from - 1 - k]);
        assert forall|i: int| from <= i < end implies #[trigger] j[i] != '\\' by {
            assert(j[i] == text[i - k]);
            assert(text[i - k] == name[i - from]);
        }
        one_more_name(j, from, end);
        assert(j.subrange(from, end) =~= name) by {
            assert forall|i: int| 0 <= i < name.len() implies j.subrange(from, end)[i]
                == name[i] by {
                assert(text[from + i - k] == name[i]);
                assert(j[from + i] == text[from + i - k]);
            }
        }
        assert(j.subrange(k, k + before.len()) =~= before) by {
            assert forall|i: int| 0 <= i < before.len() implies j.subrange(
                k,
                k + before.len(),
            )[i] == before[i] by {
                assert(text[i] == before[i]);
                assert(j[k + i] == text[i]);
            }
        }
        assert forall|i: int| 0 <= i < all.drop_last().len() implies is_verbatim_name(
            #[trigger] all.drop_last()[i],
        ) by {
            assert(is_verbatim_name(all[i]));
        }
        spelled_names(j, all.drop_last());
        assert(names(j, end) =~= all);
    }
}

/// Whether `j` has what `d` has in front of its names and, up to `from`, the names of `d`.
spec fn goes_on(d: Seq<char>, j: Seq<char>, from: int, n: Seq<char>) -> bool {
    &&& is_verbatim(j) == is_verbatim(d)
    &&& prefix_len(j) == prefix_len(d)
    &&& prefix(j) == prefix(d)
    &&& is_rooted(j) == (is_verbatim(d) || is_rooted(d))
    &&& names(j, from) == names(d, d.len() as int)
    &&& 0 <= prefix_len(j) <= from < j.len()
    &&& from > prefix_len(j) ==> separates(j, from - 1)
    &&& j.skip(from) == n
}

proof fn joined_verbatim_goes_on(d: Seq<char>, n: Seq<char>)
    requires
        is_verbatim(d),
        takes_names(d),
        is_plain(n),
    ensures
        goes_on(d, join(d, n), join(d, n).len() - n.len(), n),
        takes_names(join(d, n)),
{
    let j = join(d, n);
    let all = names(d, d.len() as int);
    let from = j.len() - n.len();
    plain_has_no_prefix(n);
    prefix_bounds(d);
    let more = seq![n];
    assert(more.drop_last() =~= Seq::empty());
    assert(followed(all, more.drop_last()) == all);
    assert(n != seq!['.'] && n != seq!['.', '.']);
    assert(verbatim_names(d, n) == all.push(n));
    let k = prefix_len(d);
    assert(all.push(n).drop_last() =~= all);
    assert(all.push(n).last() == n);
    let text = spelled(all).push('\\') + n;
    assert(spelled(all.push(n)) == text);
    assert(j == d.take(k) + text);
    verbatim_text(d, all.push(n));
    verbatim_names_are_names(d, d.len() as int);
    assert(j.subrange(k, k + spelled(all).len()) =~= spelled(all));
    spelled_names(j, all);
    assert(j[from - 1] == '\\');
    assert(separates(j, from - 1));
    assert(from - 1 == k + spelled(all).len());
    assert forall|i: int| from <= i < j.len() implies #[trigger] j[i] != '\\' by {
        assert(j[i] == n[i - from]);
        assert(!is_separator(n[i - from]));
    }
    one_more_name(j, from, j.len() as int);
    assert(j.skip(from) =~= n);
}

proof fn joined_plainly_goes_on(d: Seq<char>, n: Seq<char>)
    requires
        !is_verbatim(d),
        takes_names(d),
        is_plain(n),
    ensures
        goes_on(d, join(d, n), join(d, n).len() - n.len(), n),
{
    let j = join(d, n);
    let m = d.len() as int;
    let from = j.len() - n.len();
    plain_has_no_prefix(n);
    prefix_bounds(d);
    joining_keeps_the_prefix(d, n);
    assert(agree(d, j, m));
    names_agree(d, j, m, m);
    if from > m {
        assert(j[from - 1] == '\\');
        assert(separates(j, from - 1));
        assert(before_separators(j, from) == before_separators(j, m));
        assert(name_end(j, from) == name_end(j, m));
        bounds(j, m);
    } else if from > prefix_len(j) {
        assert(j[from - 1] == d[from - 1]);
    }
    assert(j.skip(from) =~= n);
}

/// The place of `d`, with a root where it is verbatim.
pub open spec fn place_of_folder(d: Seq<char>) -> Place {
    Place { rooted: is_verbatim(d) || is_rooted(d), ..place(d) }
}

proof fn place_of_what_goes_on(d: Seq<char>, j: Seq<char>, from: int, n: Seq<char>)
    requires
        goes_on(d, j, from, n),
        is_plain(n),
    ensures
        place(j) == (Place {
            names: names(d, d.len() as int).push(n),
            ..place_of_folder(d)
        }),
        file_name(j) == Some(n),
        parent(j) is Some,
        place(parent(j)->0) == place_of_folder(d),
{
    assert forall|i: int| from <= i < j.len() implies !#[trigger] separates(j, i) by {
        assert(j.skip(from)[i - from] == j[i]);
        assert(!is_separator(n[i - from]));
    }
    last_name(j, from);
    parent_keeps_names(j, from);
}

/// A plain name behind a folder is a name in that folder: it is the last one, behind those of the
/// folder, and the parent is the folder. (A verbatim path without a root gets one.)
pub proof fn a_joined_name_comes_last(d: Seq<char>, n: Seq<char>)
    requires
        takes_names(d),
        is_plain(n),
    ensures
        place(join(d, n)) == (Place {
            names: names(d, d.len() as int).push(n),
            ..place_of_folder(d)
        }),
        file_name(join(d, n)) == Some(n),
        parent(join(d, n)) is Some,
        place(parent(join(d, n))->0) == place_of_folder(d),
        is_verbatim(d) ==> takes_names(join(d, n)),
{
    if is_verbatim(d) {
        joined_verbatim_goes_on(d, n);
    } else {
        joined_plainly_goes_on(d, n);
    }
    place_of_what_goes_on(d, join(d, n), join(d, n).len() - n.len(), n);
}

/// The parent of a plain name behind a folder that is written without a separator or `.` at its end
/// is written like the folder.
#[verifier::rlimit(40)]
pub proof fn the_parent_of_a_joined_name_reads_like_the_folder(d: Seq<char>, n: Seq<char>)
    requires
        !is_verbatim(d),
        takes_names(d),
        is_plain(n),
        prefix_len(d) < d.len() || is_local(d),
        name_end(d, d.len() as int) == d.len(),
    ensures
        parent(join(d, n)) == Some(d),
{
    let j = join(d, n);
    let m = d.len() as int;
    let from = j.len() - n.len();
    joined_plainly_goes_on(d, n);
    prefix_bounds(d);
    assert forall|i: int| from <= i < j.len() implies !#[trigger] separates(j, i) by {
        assert(j.skip(from)[i - from] == j[i]);
        assert(!is_separator(n[i - from]));
    }
    last_name(j, from);
    assert(agree(d, j, m));
    names_agree(d, j, m, m);
    if from > m {
        assert(separates(j, from - 1));
        assert(before_separators(j, from) == before_separators(j, m));
        assert(name_end(j, from) == name_end(j, m));
    }
    assert(name_end(j, from) == m);
    assert(j.take(m) =~= d);
}

proof fn last_dot_is_found(name: Seq<char>, at: int, end: int)
    requires
        -1 <= at < end <= name.len(),
        at >= 0 ==> name[at] == '.',
        forall|i: int| at < i < end ==> #[trigger] name[i] != '.',
    ensures
        last_dot(name, end) == at,
    decreases end,
{
    if end - 1 > at {
        assert(name[end - 1] != '.');
        last_dot_is_found(name, at, end - 1);
    }
}

/// The file `stem.ext` in a folder has the extension `ext`, which holds no dot, and the stem `stem`,
/// which may.
pub proof fn a_name_splits_at_its_last_dot(d: Seq<char>, stem: Seq<char>, ext: Seq<char>)
    requires
        takes_names(d),
        is_plain(stem + seq!['.'] + ext),
        stem.len() > 0,
        !ext.contains('.'),
    ensures
        file_name(join(d, stem + seq!['.'] + ext)) == Some(stem + seq!['.'] + ext),
        extension(join(d, stem + seq!['.'] + ext)) == Some(ext),
        file_stem(join(d, stem + seq!['.'] + ext)) == Some(stem),
{
    let n = stem + seq!['.'] + ext;
    let at = stem.len() as int;
    a_joined_name_comes_last(d, n);
    assert(n[at] == '.');
    assert forall|i: int| at < i < n.len() implies #[trigger] n[i] != '.' by {
        assert(n[i] == ext[i - at - 1]);
        assert(ext.contains(ext[i - at - 1]));
    }
    last_dot_is_found(n, at, n.len() as int);
    assert(n.skip(at + 1) =~= ext);
    assert(n.take(at) =~= stem);
}

/// A name in a folder whose only dot, if any, is its first character has no extension, and is its own
/// stem.
pub proof fn a_name_without_a_dot_has_no_extension(d: Seq<char>, n: Seq<char>)
    requires
        takes_names(d),
        is_plain(n),
        forall|i: int| 0 < i < n.len() ==> #[trigger] n[i] != '.',
    ensures
        extension(join(d, n)) is None,
        file_stem(join(d, n)) == Some(n),
{
    a_joined_name_comes_last(d, n);
    if n[0] == '.' {
        last_dot_is_found(n, 0, n.len() as int);
    } else {
        last_dot_is_found(n, -1, n.len() as int);
    }
}

/// Two names in one folder are one file if and only if they are the same name; and a name is the same file
/// in two folders that stand for the same place.
pub proof fn names_tell_the_files_of_a_folder_apart(
    d: Seq<char>,
    e: Seq<char>,
    n: Seq<char>,
    k: Seq<char>,
)
    requires
        takes_names(d),
        takes_names(e),
        !is_verbatim(d),
        is_plain(n),
        is_plain(k),
        same_place(d, e),
    ensures
        same_place(join(d, n), join(e, k)) <==> n == k,
{
    a_joined_name_comes_last(d, n);
    a_joined_name_comes_last(e, k);
    let (a, b) = (place(join(d, n)).names, place(join(e, k)).names);
    assert(a.last() == n);
    assert(b.last() == k);
    if n == k {
        assert(a =~= b);
    }
}

/// A file is another one than its folder, and so are files of folders that differ.
pub proof fn a_file_is_not_its_folder(d: Seq<char>, e: Seq<char>, n: Seq<char>)
    requires
        takes_names(d),
        takes_names(e),
        !is_verbatim(d),
        !is_verbatim(e),
        is_plain(n),
    ensures
        !same_place(join(d, n), d),
        !same_place(d, e) ==> !same_place(join(d, n), join(e, n)),
{
    a_joined_name_comes_last(d, n);
    a_joined_name_comes_last(e, n);
    let (a, b) = (place(join(d, n)), place(join(e, n)));
    assert(a.names.len() == place(d).names.len() + 1);
    if a == b {
        assert(a.names.drop_last() =~= place(d).names);
        assert(b.names.drop_last() =~= place(e).names);
        assert(place(d) =~= place(e));
    }
}

} // verus!
