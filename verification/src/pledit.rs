//! PLEDIT.TXT, the playlist colour file of a classic skin: `key=#RRGGBB`
//! lines, of which the four colours the playlist and library lists use are
//! kept.

use vstd::prelude::*;
use crate::text::{trim, trim_start, trim_char, trim_char_start, is_white_space, ascii_lower, trim_chars, trim_char_chars, lower_ascii_chars,
    chars_of, chars_eq, string_from_chars, copy_range, utf8_lossy, lossy_chars};
use crate::wsz::pairs_view;

verus! {

/// The number of bytes `c` takes in UTF-8.
pub open spec fn utf8_width(c: char) -> int {
    let u = c as u32;
    if u < 0x80 {
        1
    } else if u < 0x800 {
        2
    } else if u < 0x10000 {
        3
    } else {
        4
    }
}

/// Starting at character `i` with `n` bytes still to take, the character index
/// where exactly `n` more bytes of UTF-8 end, or `None` when the text runs out
/// first or byte `n` falls inside a character.
pub open spec fn chars_for_bytes(s: Seq<char>, i: int, n: int) -> Option<int>
    decreases s.len() - i,
{
    if n == 0 {
        Some(i)
    } else if i < 0 || i >= s.len() || utf8_width(s[i]) > n {
        None
    } else {
        chars_for_bytes(s, i + 1, n - utf8_width(s[i]))
    }
}

/// The first `n` bytes of `s` as text, as `str::get(..n)` returns them.
pub open spec fn byte_prefix(s: Seq<char>, n: int) -> Option<Seq<char>> {
    match chars_for_bytes(s, 0, n) {
        Some(k) => Some(s.take(k)),
        None => None,
    }
}

/// The index of the first `c` in `s` at or after `i`.
pub open spec fn find_from(s: Seq<char>, c: char, i: int) -> Option<int>
    decreases s.len() - i,
{
    if i < 0 || i >= s.len() {
        None
    } else if s[i] == c {
        Some(i)
    } else {
        find_from(s, c, i + 1)
    }
}

/// The CSS variable a PLEDIT.TXT key (trimmed, lower-cased) sets.
pub open spec fn pledit_var(key: Seq<char>) -> Option<Seq<char>> {
    if key == "normal"@ {
        Some("plnormal"@)
    } else if key == "current"@ {
        Some("plcurrent"@)
    } else if key == "normalbg"@ {
        Some("plbg"@)
    } else if key == "selectedbg"@ {
        Some("plselbg"@)
    } else {
        None
    }
}

/// What one line contributes: split at the first `=`, the value trimmed of
/// whitespace and quotes must start with `#` and is cut to its first seven
/// bytes; the key, trimmed and ASCII lower-cased, picks the variable.
pub open spec fn line_entry(line: Seq<char>) -> Seq<(Seq<char>, Seq<char>)> {
    match find_from(line, '=', 0) {
        None => Seq::empty(),
        Some(j) => {
            let value = trim_char(trim(line.skip(j + 1)), '"');
            if value.len() == 0 || value[0] != '#' {
                Seq::empty()
            } else {
                match byte_prefix(value, 7) {
                    None => Seq::empty(),
                    Some(v) => match pledit_var(trim(line.take(j)).map_values(|c: char| ascii_lower(c))) {
                        Some(var) => seq![(var, v)],
                        None => Seq::empty(),
                    },
                }
            }
        },
    }
}

/// A line cut at `\n` without the `\r` of a `\r\n` ending.
pub open spec fn strip_cr(s: Seq<char>) -> Seq<char> {
    if s.len() > 0 && s.last() == '\r' {
        s.drop_last()
    } else {
        s
    }
}

/// The entries of the lines of `text` from character `i` on, the current line
/// having started at `start`; lines are cut as `str::lines` cuts them.
pub open spec fn pledit_scan(text: Seq<char>, i: int, start: int) -> Seq<(Seq<char>, Seq<char>)>
    decreases text.len() - i,
{
    if i < 0 || i >= text.len() {
        if 0 <= start < text.len() {
            line_entry(text.subrange(start, text.len() as int))
        } else {
            Seq::empty()
        }
    } else if text[i] == '\n' {
        line_entry(strip_cr(text.subrange(start, i))) + pledit_scan(text, i + 1, i + 1)
    } else {
        pledit_scan(text, i + 1, start)
    }
}

/// The `(variable, colour)` entries of a PLEDIT.TXT text, in line order.
pub open spec fn pledit_entries(text: Seq<char>) -> Seq<(Seq<char>, Seq<char>)> {
    pledit_scan(text, 0, 0)
}

fn char_width(c: char) -> (w: usize)
    ensures
        w == utf8_width(c),
{
    let u = c as u32;
    if u < 0x80 {
        1
    } else if u < 0x800 {
        2
    } else if u < 0x10000 {
        3
    } else {
        4
    }
}

/// The first `n` bytes of `s` as characters (`str::get(..n)`).
pub fn prefix_of_bytes(s: &Vec<char>, n: usize) -> (r: Option<Vec<char>>)
    ensures
        match r {
            Some(v) => byte_prefix(s@, n as int) == Some(v@),
            None => byte_prefix(s@, n as int) is None,
        },
{
    let mut i: usize = 0;
    let mut left: usize = n;
    while left > 0
        invariant
            i <= s.len(),
            left <= n,
            chars_for_bytes(s@, 0, n as int) == chars_for_bytes(s@, i as int, left as int),
        decreases left,
    {
        if i >= s.len() {
            return None;
        }
        let w = char_width(s[i]);
        if w > left {
            return None;
        }
        left = left - w;
        i = i + 1;
    }
    Some(copy_range(s, 0, i))
}

fn find_char(s: &Vec<char>, c: char) -> (r: Option<usize>)
    ensures
        match r {
            Some(j) => find_from(s@, c, 0) == Some(j as int) && j < s.len(),
            None => find_from(s@, c, 0) is None,
        },
{
    let mut i: usize = 0;
    while i < s.len()
        invariant
            i <= s.len(),
            find_from(s@, c, 0) == find_from(s@, c, i as int),
        decreases s.len() - i,
    {
        if s[i] == c {
            return Some(i);
        }
        i += 1;
    }
    None
}

fn var_for_key(key: &Vec<char>) -> (r: Option<&'static str>)
    ensures
        match r {
            Some(v) => pledit_var(key@) == Some(v@),
            None => pledit_var(key@) is None,
        },
{
    if chars_eq(key, &chars_of("normal")) {
        Some("plnormal")
    } else if chars_eq(key, &chars_of("current")) {
        Some("plcurrent")
    } else if chars_eq(key, &chars_of("normalbg")) {
        Some("plbg")
    } else if chars_eq(key, &chars_of("selectedbg")) {
        Some("plselbg")
    } else {
        None
    }
}

fn push_line_entry(out: &mut Vec<(String, String)>, line: &Vec<char>)
    ensures
        pairs_view(final(out)@) == pairs_view(old(out)@) + line_entry(line@),
{
    let ghost before = pairs_view(out@);
    let j = match find_char(line, '=') {
        Some(j) => j,
        None => {
            assert(pairs_view(out@) =~= before + line_entry(line@));
            return;
        },
    };
    let raw = copy_range(line, j + 1, line.len());
    assert(raw@ =~= line@.skip(j + 1));
    let value = trim_char_chars(&trim_chars(&raw), '"');
    if value.len() == 0 || value[0] != '#' {
        assert(pairs_view(out@) =~= before + line_entry(line@));
        return;
    }
    let colour = match prefix_of_bytes(&value, 7) {
        Some(v) => v,
        None => {
            assert(pairs_view(out@) =~= before + line_entry(line@));
            return;
        },
    };
    let raw_key = copy_range(line, 0, j);
    assert(raw_key@ =~= line@.take(j as int));
    let key = lower_ascii_chars(&trim_chars(&raw_key));
    match var_for_key(&key) {
        Some(var) => {
            out.push((var.to_owned(), string_from_chars(&colour)));
        },
        None => {},
    }
    assert(pairs_view(out@) =~= before + line_entry(line@));
}

/// The playlist colours a PLEDIT.TXT sets, as `(variable, "#RRGGBB")` in line
/// order (a later line for the same variable wins when they are inserted).
pub fn pledit_colours(text: &Vec<char>) -> (r: Vec<(String, String)>)
    ensures
        pairs_view(r@) == pledit_entries(text@),
{
    let mut out: Vec<(String, String)> = Vec::new();
    let mut i: usize = 0;
    let mut start: usize = 0;
    assert(pairs_view(out@) =~= Seq::<(Seq<char>, Seq<char>)>::empty());
    while i < text.len()
        invariant
            start <= i <= text.len(),
            pledit_entries(text@) == pairs_view(out@) + pledit_scan(text@, i as int, start as int),
        decreases text.len() - i,
    {
        if text[i] == '\n' {
            let ghost before = pairs_view(out@);
            let mut end = i;
            if end > start && text[end - 1] == '\r' {
                end = end - 1;
            }
            let line = copy_range(text, start, end);
            assert(line@ =~= strip_cr(text@.subrange(start as int, i as int)));
            push_line_entry(&mut out, &line);
            assert(pairs_view(out@) + pledit_scan(text@, i + 1, i + 1) =~= before + pledit_scan(
                text@,
                i as int,
                start as int,
            ));
            i = i + 1;
            start = i;
        } else {
            i = i + 1;
        }
    }
    if start < text.len() {
        let line = copy_range(text, start, text.len());
        push_line_entry(&mut out, &line);
    } else {
        assert(pairs_view(out@) =~= pairs_view(out@) + Seq::<(Seq<char>, Seq<char>)>::empty());
    }
    out
}

/// The playlist colours of a PLEDIT.TXT file, decoded as
/// `String::from_utf8_lossy` decodes it.
pub fn parse_pledit(bytes: &[u8]) -> (r: Vec<(String, String)>)
    ensures
        pairs_view(r@) == pledit_entries(utf8_lossy(bytes@)),
{
    let text = lossy_chars(bytes);
    pledit_colours(&text)
}

proof fn lemma_find_first(s: Seq<char>, c: char, i: int, k: int)
    requires
        0 <= i <= k < s.len(),
        s[k] == c,
        forall|j: int| i <= j < k ==> s[j] != c,
    ensures
        find_from(s, c, i) == Some(k),
    decreases k - i,
{
    if i < k {
        lemma_find_first(s, c, i + 1, k);
    }
}

pub open spec fn is_ascii_alnum(c: char) -> bool {
    ('0' <= c <= '9') || ('a' <= c <= 'z') || ('A' <= c <= 'Z')
}

/// The four colour keys and the variables they set: `normal` the playlist
/// text, `current` the playing entry, `normalbg` the background and
/// `selectedbg` the selection bar.
pub open spec fn colour_key(key: Seq<char>, var: Seq<char>) -> bool {
    ||| key == seq!['n', 'o', 'r', 'm', 'a', 'l'] && var == seq!['p', 'l', 'n', 'o', 'r', 'm', 'a', 'l']
    ||| key == seq!['c', 'u', 'r', 'r', 'e', 'n', 't'] && var == seq!['p', 'l', 'c', 'u', 'r', 'r', 'e', 'n', 't']
    ||| key == seq!['n', 'o', 'r', 'm', 'a', 'l', 'b', 'g'] && var == seq!['p', 'l', 'b', 'g']
    ||| key == seq!['s', 'e', 'l', 'e', 'c', 't', 'e', 'd', 'b', 'g'] && var == seq!['p', 'l', 's', 'e', 'l', 'b', 'g']
}

/// A colour line `Key=#RRGGBB` sets the key's variable to the colour: the
/// key is matched whatever its ASCII case, and the value is kept as written.
pub proof fn law_colour_line(key: Seq<char>, lower: Seq<char>, var: Seq<char>, v: Seq<char>)
    requires
        colour_key(lower, var),
        key.len() == lower.len(),
        forall|i: int| 0 <= i < key.len() ==> ascii_lower(#[trigger] key[i]) == lower[i],
        v.len() == 7,
        v[0] == '#',
        forall|i: int| 1 <= i < 7 ==> is_ascii_alnum(#[trigger] v[i]),
    ensures
        line_entry(key + seq!['='] + v) == seq![(var, v)],
{
    let line = key + seq!['='] + v;
    let k = key.len() as int;
    assert forall|j: int| 0 <= j < k implies line[j] != '=' by {
        assert(line[j] == key[j]);
        assert(ascii_lower(key[j]) == lower[j]);
    }
    assert(line[k] == '=');
    lemma_find_first(line, '=', 0, k);
    assert(line.take(k) =~= key);
    assert(line.skip(k + 1) =~= v);
    assert(!is_white_space(key[0])) by {
        assert(ascii_lower(key[0]) == lower[0]);
    }
    assert(!is_white_space(key.last())) by {
        assert(ascii_lower(key[k - 1]) == lower[k - 1]);
    }
    assert(trim_start(key) == key);
    assert(trim(key) == key);
    assert(key.map_values(|c: char| ascii_lower(c)) =~= lower);
    assert(is_ascii_alnum(v[6]));
    assert(trim_start(v) == v);
    assert(trim(v) == v);
    assert(trim_char_start(v, '"') == v);
    assert(trim_char(v, '"') == v);
    assert forall|i: int| 0 <= i < 7 implies utf8_width(#[trigger] v[i]) == 1 by {
        if i > 0 {
            assert(is_ascii_alnum(v[i]));
        }
    }
    assert(chars_for_bytes(v, 6, 1) == Some(7int)) by {
        assert(chars_for_bytes(v, 7, 0) == Some(7int));
    }
    assert(chars_for_bytes(v, 5, 2) == Some(7int));
    assert(chars_for_bytes(v, 4, 3) == Some(7int));
    assert(chars_for_bytes(v, 3, 4) == Some(7int));
    assert(chars_for_bytes(v, 2, 5) == Some(7int));
    assert(chars_for_bytes(v, 1, 6) == Some(7int));
    assert(chars_for_bytes(v, 0, 7) == Some(7int));
    assert(v.take(7) =~= v);
    reveal_strlit("normal");
    reveal_strlit("current");
    reveal_strlit("normalbg");
    reveal_strlit("selectedbg");
    reveal_strlit("plnormal");
    reveal_strlit("plcurrent");
    reveal_strlit("plbg");
    reveal_strlit("plselbg");
    let (n, c, nb, sb) = ("normal"@, "current"@, "normalbg"@, "selectedbg"@);
    assert(n.len() == 6 && c.len() == 7 && nb.len() == 8 && sb.len() == 10);
    if lower.len() == 6 {
        assert(lower =~= n);
        assert(var =~= "plnormal"@);
    } else if lower.len() == 7 {
        assert(lower =~= c);
        assert(var =~= "plcurrent"@);
    } else if lower.len() == 8 {
        assert(lower =~= nb);
        assert(var =~= "plbg"@);
    } else {
        assert(lower =~= sb);
        assert(var =~= "plselbg"@);
    }
    assert(pledit_var(lower) == Some(var));
}

proof fn lemma_scan_shift(p: Seq<char>, rest: Seq<char>, i: int, st: int)
    requires
        0 <= st <= i,
    ensures
        pledit_scan(p + rest, p.len() + i, p.len() + st) == pledit_scan(rest, i, st),
    decreases rest.len() - i,
{
    let t = p + rest;
    let o = p.len() as int;
    if i >= rest.len() {
        if st < rest.len() {
            assert(t.subrange(o + st, t.len() as int) =~= rest.subrange(st, rest.len() as int));
        }
    } else {
        assert(t[o + i] == rest[i]);
        if rest[i] == '\n' {
            assert(t.subrange(o + st, o + i) =~= rest.subrange(st, i));
            lemma_scan_shift(p, rest, i + 1, i + 1);
        } else {
            lemma_scan_shift(p, rest, i + 1, st);
        }
    }
}

proof fn lemma_scan_first_line(t: Seq<char>, len: int, j: int)
    requires
        0 <= j <= len < t.len(),
        t[len] == '\n',
        forall|k: int| 0 <= k < len ==> t[k] != '\n',
    ensures
        pledit_scan(t, j, 0) == line_entry(strip_cr(t.subrange(0, len))) + pledit_scan(t, len + 1, len + 1),
    decreases len - j,
{
    if j < len {
        lemma_scan_first_line(t, len, j + 1);
    }
}

proof fn lemma_scan_last_line(t: Seq<char>, j: int)
    requires
        0 <= j <= t.len(),
        t.len() > 0,
        forall|k: int| 0 <= k < t.len() ==> t[k] != '\n',
    ensures
        pledit_scan(t, j, 0) == line_entry(t),
    decreases t.len() - j,
{
    if j < t.len() {
        lemma_scan_last_line(t, j + 1);
    } else {
        assert(t.subrange(0, t.len() as int) =~= t);
    }
}

/// PLEDIT.TXT is read line by line: the entries of a text are those of its
/// first line (without a `\r` ending), then those of the lines after it; a
/// last line without a line break counts as a line too.
pub proof fn law_entries_by_line(line: Seq<char>, rest: Seq<char>)
    requires
        forall|k: int| 0 <= k < line.len() ==> line[k] != '\n',
    ensures
        pledit_entries(line + seq!['\n'] + rest) == line_entry(strip_cr(line)) + pledit_entries(rest),
        line.len() > 0 ==> pledit_entries(line) == line_entry(line),
{
    if line.len() > 0 {
        lemma_scan_last_line(line, 0);
    }
    let p = line + seq!['\n'];
    let t = p + rest;
    assert(line + seq!['\n'] + rest =~= t);
    let len = line.len() as int;
    assert forall|k: int| 0 <= k < len implies t[k] != '\n' by {
        assert(t[k] == line[k]);
    }
    lemma_scan_first_line(t, len, 0);
    assert(t.subrange(0, len) =~= line);
    lemma_scan_shift(p, rest, 0, 0);
}

} // verus!
