//! How texts are taken apart and put together: numbers in digits, words and
//! lines, addresses with a prefix, pairs of ports, and paths.

use vstd::prelude::*;

use crate::config::IpAddr;
use crate::control::{argument, digits_value, number_of, unsigned_part, verb_word, word_end};
use crate::egress::{cidr_of, host_of, lower, undotted};
use crate::overlay::{added_at, find_entry, overlaid, Content, Entry};
use crate::snapshot::{after_line, find_code, first_line, pivot_of, pivots_from, PivotFault};
use crate::sockets::{port_pair_of, ports_of};
use crate::text::{
    decimal_of, digits_of, is_space, joined, signed_decimal_of, trimmed, trimmed_end, trimmed_start,
};

verus! {

/// Whether a character occurs in a text.
pub open spec fn holds(s: Seq<char>, code: u32) -> bool {
    exists|i: int| 0 <= i < s.len() && #[trigger] s[i] as u32 == code
}

/// A character that is not in the front part is found behind it.
proof fn lemma_found_behind(a: Seq<char>, c: char, b: Seq<char>, at: int)
    requires
        !holds(a, c as u32),
        0 <= at <= a.len(),
    ensures
        find_code(a + seq![c] + b, c as u32, at) == a.len(),
    decreases a.len() - at,
{
    let s = a + seq![c] + b;
    if at < a.len() {
        assert(s[at] == a[at]);
        lemma_found_behind(a, c, b, at + 1);
    } else {
        assert(s[at] == c);
    }
}

proof fn lemma_not_found(a: Seq<char>, code: u32, at: int)
    requires
        !holds(a, code),
        0 <= at <= a.len(),
    ensures
        find_code(a, code, at) == a.len(),
    decreases a.len() - at,
{
    if at < a.len() {
        assert(a[at] as u32 != code);
        lemma_not_found(a, code, at + 1);
    }
}

proof fn lemma_parts(a: Seq<char>, c: char, b: Seq<char>)
    ensures
        ({
            let s = a + seq![c] + b;
            &&& s.subrange(0, a.len() as int) == a
            &&& s.skip(a.len() as int + 1) == b
            &&& s.subrange(a.len() as int + 1, s.len() as int) == b
        }),
{
    let s = a + seq![c] + b;
    assert(s.subrange(0, a.len() as int) =~= a);
    assert(s.skip(a.len() as int + 1) =~= b);
    assert(s.subrange(a.len() as int + 1, s.len() as int) =~= b);
}

/// A digit is the character that stands for it.
proof fn lemma_digit(d: int)
    requires
        0 <= d < 16,
    ensures
        "0123456789abcdef"@[d] as u32 == (if d < 10 {
            0x30 + d
        } else {
            0x61 + d - 10
        }),
{
    reveal_strlit("0123456789abcdef");
}

/// A number in digits reads as that number, and holds nothing but digits, of
/// which the first is not a zero unless it is the only one.
pub proof fn numbers_read_back(n: nat, max: nat)
    ensures
        digits_value(decimal_of(n)) == Some(n),
        decimal_of(n).len() > 0,
        forall|i: int|
            0 <= i < decimal_of(n).len() ==> 0x30 <= #[trigger] decimal_of(n)[i] as u32 <= 0x39,
        n > 0 ==> decimal_of(n)[0] as u32 != 0x30,
        n <= max ==> number_of(decimal_of(n), max) == Some(n),
        n > max ==> number_of(decimal_of(n), max) is None,
    decreases n,
{
    if n < 10 {
        lemma_digit(n as int);
        let s = decimal_of(n);
        assert(s.len() == 1);
        assert(s.drop_last() =~= Seq::empty());
        assert(digits_value(s.drop_last()) == Some(0nat));
    } else {
        let d = (n % 10) as int;
        lemma_digit(d);
        let front = digits_of(n / 10, 10);
        let c = "0123456789abcdef"@[d];
        numbers_read_back(n / 10, max);
        let s = front.push(c);
        assert(decimal_of(n) == s);
        assert(s.drop_last() =~= front);
        assert(forall|i: int| 0 <= i < front.len() ==> s[i] == front[i]);
    }
    assert(unsigned_part(decimal_of(n)) == decimal_of(n));
}

/// In base sixteen every digit stands for itself, the lowest last.
pub proof fn hexadecimal_digits_stand_for_themselves(n: nat)
    ensures
        digits_of(n, 16).last() as u32 == (if n % 16 < 10 {
            0x30 + n % 16
        } else {
            0x57 + n % 16
        }),
        n < 16 ==> digits_of(n, 16).len() == 1,
        n >= 16 ==> digits_of(n, 16).drop_last() == digits_of(n / 16, 16),
{
    lemma_digit((n % 16) as int);
    if n >= 16 {
        assert(digits_of(n, 16).drop_last() =~= digits_of(n / 16, 16));
    }
}

/// A negative number has a minus sign before its digits.
pub proof fn negative_numbers_have_a_sign(n: int)
    ensures
        n >= 0 ==> signed_decimal_of(n) == decimal_of(n as nat),
        n < 0 ==> signed_decimal_of(n)[0] == '-' && signed_decimal_of(n).drop_first() == decimal_of(
            (-n) as nat,
        ),
{
    reveal_strlit("-");
    if n < 0 {
        assert(signed_decimal_of(n).drop_first() =~= decimal_of((-n) as nat));
    }
}

/// What counts as whitespace.
pub open spec fn blank(c: char) -> bool {
    let v = c as u32;
    v == 0x20 || (9 <= v && v <= 13) || v == 0x85 || v == 0xa0 || v == 0x1680 || (0x2000 <= v && v
        <= 0x200a) || v == 0x2028 || v == 0x2029 || v == 0x202f || v == 0x205f || v == 0x3000
}

/// Trimming takes the whitespace at both ends away, and nothing else.
pub proof fn trimming_cuts_whitespace_alone(s: Seq<char>)
    ensures
        exists|i: int, j: int|
            #![trigger s.subrange(i, j)]
            {
                &&& 0 <= i <= j <= s.len()
                &&& trimmed(s) == s.subrange(i, j)
                &&& forall|k: int| 0 <= k < i || j <= k < s.len() ==> blank(#[trigger] s[k])
                &&& i < j ==> !blank(s[i]) && !blank(s[j - 1])
            },
{
    let i = lemma_cut_start(s);
    let a = s.subrange(i, s.len() as int);
    let n = lemma_cut_end(a);
    let j = i + n;
    assert(trimmed(s) =~= s.subrange(i, j));
    assert forall|k: int| 0 <= k < i || j <= k < s.len() implies blank(#[trigger] s[k]) by {
        if j <= k {
            assert(a[k - i] == s[k]);
        }
    }
    if i < j {
        assert(a[0] == s[i]);
        assert(a[n - 1] == s[j - 1]);
    }
    assert(s.subrange(i, j).len() == n);
}

proof fn lemma_cut_start(s: Seq<char>) -> (i: int)
    ensures
        0 <= i <= s.len(),
        trimmed_start(s) == s.subrange(i, s.len() as int),
        forall|k: int| 0 <= k < i ==> blank(#[trigger] s[k]),
        i < s.len() ==> !blank(s[i]),
    decreases s.len(),
{
    if s.len() > 0 && is_space(s[0]) {
        let t = s.drop_first();
        let j = lemma_cut_start(t);
        assert(t.subrange(j, t.len() as int) =~= s.subrange(j + 1, s.len() as int));
        assert forall|k: int| 0 <= k < j + 1 implies blank(#[trigger] s[k]) by {
            if k > 0 {
                assert(t[k - 1] == s[k]);
            }
        }
        if j < t.len() {
            assert(t[j] == s[j + 1]);
        }
        j + 1
    } else {
        assert(s.subrange(0, s.len() as int) =~= s);
        0
    }
}

proof fn lemma_cut_end(s: Seq<char>) -> (j: int)
    ensures
        0 <= j <= s.len(),
        trimmed_end(s) == s.subrange(0, j),
        forall|k: int| j <= k < s.len() ==> blank(#[trigger] s[k]),
        j > 0 ==> !blank(s[j - 1]),
    decreases s.len(),
{
    if s.len() > 0 && is_space(s.last()) {
        let t = s.drop_last();
        let j = lemma_cut_end(t);
        assert(t.subrange(0, j) =~= s.subrange(0, j));
        assert forall|k: int| j <= k < s.len() implies blank(#[trigger] s[k]) by {
            if k < t.len() {
                assert(t[k] == s[k]);
            }
        }
        if j > 0 {
            assert(t[j - 1] == s[j - 1]);
        }
        j
    } else {
        assert(s.subrange(0, s.len() as int) =~= s);
        s.len() as int
    }
}

/// Parts are joined in their order, with the separator between every two.
pub proof fn joining_goes_in_order(first: Seq<char>, rest: Seq<Seq<char>>, sep: Seq<char>)
    ensures
        joined(Seq::empty(), sep).len() == 0,
        joined(seq![first], sep) == first,
        rest.len() > 0 ==> joined(seq![first] + rest, sep) == first + sep + joined(rest, sep),
    decreases rest.len(),
{
    if rest.len() > 0 {
        let all = seq![first] + rest;
        if rest.len() == 1 {
            assert(all.drop_last() =~= seq![first]);
            assert(all.last() == rest[0]);
            assert(joined(seq![first], sep) == first);
            assert(joined(rest, sep) == rest[0]);
            assert(joined(all, sep) =~= first + sep + joined(rest, sep));
        } else {
            assert(all.drop_last() =~= seq![first] + rest.drop_last());
            joining_goes_in_order(first, rest.drop_last(), sep);
            assert(all.last() == rest.last());
            assert(joined(all, sep) =~= first + sep + joined(rest, sep));
        }
    }
}

/// Whether a text has no whitespace at its ends.
pub open spec fn trim(s: Seq<char>) -> bool {
    s.len() > 0 ==> !blank(s[0]) && !blank(s.last())
}

pub proof fn lemma_trim(s: Seq<char>)
    requires
        trim(s),
    ensures
        trimmed(s) == s,
{
}

/// A command is its first word, and what follows the space is its argument.
pub proof fn commands_are_a_word_and_an_argument(word: Seq<char>, arg: Seq<char>)
    requires
        word.len() > 0,
        forall|i: int| 0 <= i < word.len() ==> !blank(#[trigger] word[i]),
        arg.len() > 0,
        trim(arg),
    ensures
        verb_word(word + seq![' '] + arg) == word,
        argument(word + seq![' '] + arg) == arg,
        verb_word(word) == word,
        argument(word).len() == 0,
{
    let s = word + seq![' '] + arg;
    assert(s[0] == word[0]);
    assert(s.last() == arg.last());
    lemma_trim(s);
    lemma_trim(word);
    lemma_trim(arg);
    lemma_word_end(word, arg, 0);
    lemma_whole_word(word, 0);
    lemma_parts(word, ' ', arg);
    assert(word.subrange(0, word.len() as int) =~= word);
}

proof fn lemma_word_end(word: Seq<char>, arg: Seq<char>, at: int)
    requires
        forall|i: int| 0 <= i < word.len() ==> !blank(#[trigger] word[i]),
        0 <= at <= word.len(),
    ensures
        word_end(word + seq![' '] + arg, at) == word.len(),
    decreases word.len() - at,
{
    let s = word + seq![' '] + arg;
    if at < word.len() {
        assert(s[at] == word[at]);
        lemma_word_end(word, arg, at + 1);
    } else {
        assert(s[at] == ' ');
    }
}

proof fn lemma_whole_word(word: Seq<char>, at: int)
    requires
        forall|i: int| 0 <= i < word.len() ==> !blank(#[trigger] word[i]),
        0 <= at <= word.len(),
    ensures
        word_end(word, at) == word.len(),
    decreases word.len() - at,
{
    if at < word.len() {
        assert(!blank(word[at]));
        lemma_whole_word(word, at + 1);
    }
}

/// A block pivot is a line with an identifier, a tab and a path; lines are
/// taken in their order.
pub proof fn pivots_are_lines(
    id: Seq<char>,
    path: Seq<char>,
    rest: Seq<char>,
    n: u64,
    acc: Seq<(Seq<char>, Seq<char>)>,
)
    requires
        id.len() > 0,
        path.len() > 0,
        !holds(id, 9),
        !holds(id, 10),
        !holds(path, 10),
        !holds(path, 0),
        path.last() as u32 != 13,
    ensures
        ({
            let line = id + seq!['\t'] + path;
            &&& first_line(line + seq!['\n'] + rest) == line
            &&& after_line(line + seq!['\n'] + rest) == rest
            &&& pivot_of(line, n) == Ok::<(Seq<char>, Seq<char>), PivotFault>((id, path))
            &&& pivots_from(line + seq!['\n'] + rest, n, acc) == pivots_from(
                rest,
                (n + 1) as u64,
                acc.push((id, path)),
            )
        }),
{
    let line = id + seq!['\t'] + path;
    assert(!holds(line, 10)) by {
        assert forall|i: int| 0 <= i < line.len() implies #[trigger] line[i] as u32 != 10 by {
            if i < id.len() {
                assert(line[i] == id[i]);
            } else if i > id.len() {
                assert(line[i] == path[i - id.len() - 1]);
            }
        }
    }
    let s = line + seq!['\n'] + rest;
    lemma_found_behind(line, '\n', rest, 0);
    lemma_parts(line, '\n', rest);
    assert(s[line.len() - 1] == line.last());
    assert(line.last() == path.last());
    lemma_found_behind(id, '\t', path, 0);
    lemma_parts(id, '\t', path);
    lemma_not_found(path, 0, 0);
}

/// A range of addresses is an address, and behind a slash how many of its bits
/// are fixed, at most all; with no slash it is that address alone.
pub proof fn ranges_are_an_address_and_a_prefix(text: Seq<char>, ip: IpAddr, prefix: u8)
    requires
        !holds(text, 0x2f),
    ensures
        ({
            let all: u8 = match ip {
                IpAddr::V4(_) => 32,
                IpAddr::V6(_) => 128,
            };
            let r = cidr_of(text + seq!['/'] + decimal_of(prefix as nat), Some(ip));
            &&& cidr_of(text, Some(ip)) == Some((ip, all))
            &&& prefix <= all ==> r == Some((ip, prefix))
            &&& prefix > all ==> r is None
            &&& cidr_of(text, None) is None
        }),
{
    lemma_not_found(text, 0x2f, 0);
    let d = decimal_of(prefix as nat);
    lemma_found_behind(text, '/', d, 0);
    lemma_parts(text, '/', d);
    numbers_read_back(prefix as nat, 255);
}

/// A pair of ports is the host's number, a colon and the guest's.
pub proof fn port_pairs_are_two_numbers(host: u16, guest: u16)
    ensures
        port_pair_of(decimal_of(host as nat) + seq![':'] + decimal_of(guest as nat)) == Some(
            (host, guest),
        ),
{
    let (a, b) = (decimal_of(host as nat), decimal_of(guest as nat));
    numbers_read_back(host as nat, 0xffff);
    numbers_read_back(guest as nat, 0xffff);
    assert(!holds(a, 0x3a) && !holds(b, 0x3a));
    lemma_found_behind(a, ':', b, 0);
    lemma_parts(a, ':', b);
    lemma_not_found(b, 0x3a, 0);
}

/// A map of ports holds every pair that was given.
pub proof fn port_maps_hold_every_pair(texts: Seq<Seq<char>>, i: int)
    requires
        0 <= i < texts.len(),
    ensures
        ports_of(texts) matches Some(m) ==> (port_pair_of(texts[i]) matches Some((host, guest))
            && m.contains_key(guest) && m[guest] == host),
    decreases texts.len(),
{
    if i < texts.len() - 1 {
        port_maps_hold_every_pair(texts.drop_last(), i);
        assert(texts.drop_last()[i] == texts[i]);
    }
}

/// The names of hosts are kept in lower case and without the dots at their
/// end; one that is empty or holds a colon is none.
pub proof fn hosts_are_kept_in_lower_case(text: Seq<char>)
    ensures
        ({
            let n = undotted(text);
            &&& n.len() <= text.len() && n == text.subrange(0, n.len() as int)
            &&& n.len() > 0 ==> n.last() as u32 != 0x2e
            &&& forall|i: int| n.len() <= i < text.len() ==> #[trigger] text[i] as u32 == 0x2e
            &&& host_of(text) is None <==> n.len() == 0 || holds(n, 0x3a)
            &&& host_of(text) matches Some(h) ==> h.len() == n.len() && forall|i: int|
                0 <= i < n.len() ==> (#[trigger] h[i]) as u32 == (if 0x41 <= n[i] as u32 <= 0x5a {
                    (n[i] as u32 + 0x20) as u32
                } else {
                    n[i] as u32
                })
        }),
{
    lemma_undotted(text);
    let n = undotted(text);
    let h = n.map_values(|c: char| lower(c));
    assert forall|i: int| 0 <= i < n.len() implies (#[trigger] h[i]) as u32 == (if 0x41 <= n[i] as u32
        <= 0x5a {
        (n[i] as u32 + 0x20) as u32
    } else {
        n[i] as u32
    }) by {
        reveal_strlit("abcdefghijklmnopqrstuvwxyz");
    }
    crate::snapshot::lemma_find_code(h, 0x3a, 0);
    let e = find_code(h, 0x3a, 0);
    if e < h.len() {
        assert(h[e] as u32 == 0x3a);
        assert(n[e] as u32 == 0x3a);
    } else if holds(n, 0x3a) {
        let i = choose|i: int| 0 <= i < n.len() && #[trigger] n[i] as u32 == 0x3a;
        assert(h[i] as u32 == 0x3a);
        lemma_first(h, 0x3a, 0, i);
    }
}

pub proof fn lemma_first(s: Seq<char>, code: u32, at: int, i: int)
    requires
        0 <= at <= i < s.len(),
        s[i] as u32 == code,
    ensures
        find_code(s, code, at) <= i,
    decreases i - at,
{
    if at < i && s[at] as u32 != code {
        lemma_first(s, code, at + 1, i);
    }
}

proof fn lemma_undotted(s: Seq<char>)
    ensures
        ({
            let n = undotted(s);
            &&& n.len() <= s.len() && n == s.subrange(0, n.len() as int)
            &&& n.len() > 0 ==> n.last() as u32 != 0x2e
            &&& forall|i: int| n.len() <= i < s.len() ==> #[trigger] s[i] as u32 == 0x2e
        }),
    decreases s.len(),
{
    if s.len() > 0 && s.last() as u32 == 0x2e {
        let t = s.drop_last();
        lemma_undotted(t);
        let n = undotted(t);
        assert(n =~= s.subrange(0, n.len() as int));
        assert forall|i: int| n.len() <= i < s.len() implies #[trigger] s[i] as u32 == 0x2e by {
            if i < t.len() {
                assert(t[i] == s[i]);
            }
        }
    } else {
        assert(s =~= s.subrange(0, s.len() as int));
    }
}

/// An entry with a plain name goes behind the others; one below a directory
/// goes into the first entry of that name, which must be there and be a
/// directory, and leaves the other entries alone. A slash at the front does not
/// count.
pub proof fn entries_go_where_their_path_leads(
    entries: Seq<Entry>,
    name: Seq<char>,
    below: Seq<char>,
    new: Entry,
    i: int,
)
    requires
        name.len() > 0,
        !holds(name, 0x2f),
        !holds(name, 0),
        below.len() > 0,
        below.last() as u32 != 0x2f,
        0 <= i < entries.len(),
        forall|j: int| 0 <= j < i ==> (#[trigger] entries[j]).name != name,
        entries[i].name == name,
    ensures
        overlaid(entries, name, new) == Ok::<Seq<Entry>, crate::errno::Errno>(
            entries.push(Entry { name, ..new }),
        ),
        overlaid(entries, seq!['/'] + name, new) == overlaid(entries, name, new),
        ({
            let path = name + seq!['/'] + below;
            let r = overlaid(entries, path, new);
            match entries[i].content {
                Content::File(_) => r == Err::<Seq<Entry>, crate::errno::Errno>(
                    crate::errno::Errno::NotDir,
                ),
                Content::Dir(children) => match added_at(children, below, new) {
                    Ok(grown) => r == Ok::<Seq<Entry>, crate::errno::Errno>(
                        entries.update(i, (Entry { content: Content::Dir(grown), ..entries[i] })),
                    ),
                    Err(e) => r == Err::<Seq<Entry>, crate::errno::Errno>(e),
                },
            }
        }),
{
    lemma_not_found(name, 0x2f, 0);
    lemma_not_found(name, 0, 0);
    let slashed = seq!['/'] + name;
    assert(slashed.skip(1) =~= name);
    assert(slashed[0] == '/');
    assert(name[0] as u32 != 0x2f);
    assert(name.last() == name[name.len() - 1]);
    let path = name + seq!['/'] + below;
    lemma_found_behind(name, '/', below, 0);
    lemma_parts(name, '/', below);
    assert(path[0] == name[0]);
    assert(path.last() == below.last());
    lemma_entry_found(entries, name, 0, i);
}

proof fn lemma_entry_found(entries: Seq<Entry>, name: Seq<char>, at: int, i: int)
    requires
        0 <= at <= i < entries.len(),
        forall|j: int| at <= j < i ==> (#[trigger] entries[j]).name != name,
        entries[i].name == name,
    ensures
        find_entry(entries, name, at) == i,
    decreases i - at,
{
    if at < i {
        assert(entries[at].name != name);
        lemma_entry_found(entries, name, at + 1, i);
    }
}

} // verus!
