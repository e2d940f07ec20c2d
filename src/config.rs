//! The `key = "value"` extractor for the `[general]` block of an item's
//! configuration text, and the parse-or-default policy for its numeric and
//! boolean fields.
//!
//! The block starts at the first line that begins with `[general]`; it goes on
//! over the following lines up to the first one that is blank or starts with
//! `[` (or with a carriage return). A line of the block holds a
//! pair when it reads `key`, optional whitespace, `=`, optional whitespace, and
//! a quoted value: the key is the shortest such prefix of the line and the
//! value runs up to the line's last quote. The first pair with the key asked
//! for gives the value.
use vstd::prelude::*;
use crate::text::{chars_of, string_from};

verus! {

/// Whitespace as understood between a key, the `=` and the opening quote.
pub open spec fn is_space(c: char) -> bool {
    let u = c as u32;
    u == 0x20 || (0x09 <= u && u <= 0x0d && u != 0x0a) || u == 0x85 || u == 0xa0 || u == 0x1680
        || (0x2000 <= u && u <= 0x200a) || u == 0x2028 || u == 0x2029 || u == 0x202f || u == 0x205f
        || u == 0x3000
}

/// The line header that opens the block.
pub open spec fn general_header() -> Seq<char> {
    seq!['[', 'g', 'e', 'n', 'e', 'r', 'a', 'l', ']']
}

/// Whether the block header starts at `h`, at the start of a line.
pub open spec fn header_at(t: Seq<char>, h: nat) -> bool {
    &&& h == 0 || t[h - 1int] == '\n'
    &&& h + 9 <= t.len()
    &&& t.subrange(h as int, h + 9int) == general_header()
}

/// The first position at or after `i` where the block header starts.
pub open spec fn find_header(t: Seq<char>, i: nat) -> Option<nat>
    decreases t.len() - i,
{
    if i + 9 > t.len() {
        None
    } else if header_at(t, i) {
        Some(i)
    } else {
        find_header(t, i + 1)
    }
}

/// The end of the line that holds position `i`: its line feed, or the end of the text.
pub open spec fn line_end(t: Seq<char>, i: nat) -> nat
    decreases t.len() - i,
{
    if i >= t.len() || t[i as int] == '\n' {
        i
    } else {
        line_end(t, i + 1)
    }
}

/// The first position at or after `i` that holds no whitespace.
pub open spec fn skip_space(s: Seq<char>, i: nat) -> nat
    decreases s.len() - i,
{
    if i >= s.len() || !is_space(s[i as int]) {
        i
    } else {
        skip_space(s, i + 1)
    }
}

/// The position of the last quote among the first `n` characters.
pub open spec fn last_quote(s: Seq<char>, n: nat) -> Option<nat>
    decreases n,
{
    if n == 0 || n > s.len() {
        None
    } else if s[n - 1int] == '"' {
        Some((n - 1) as nat)
    } else {
        last_quote(s, (n - 1) as nat)
    }
}

/// The value of the pair on `line` whose key is `line[..p]`, if there is one.
pub open spec fn value_after(line: Seq<char>, p: nat) -> Option<Seq<char>> {
    let q = skip_space(line, p);
    let r = skip_space(line, q + 1);
    if q < line.len() && line[q as int] == '=' && r < line.len() && line[r as int] == '"' {
        match last_quote(line, line.len()) {
            Some(z) => if z > r {
                Some(line.subrange(r + 1int, z as int))
            } else {
                None
            },
            None => None,
        }
    } else {
        None
    }
}

/// The pair on `line` with the shortest key of length at least `p`.
pub open spec fn pair_from(line: Seq<char>, p: nat) -> Option<(Seq<char>, Seq<char>)>
    decreases line.len() - p,
{
    if p >= line.len() {
        None
    } else {
        match value_after(line, p) {
            Some(v) => Some((line.subrange(0, p as int), v)),
            None => pair_from(line, p + 1),
        }
    }
}

/// The (key, value) pair that a line holds, if any.
pub open spec fn line_pair(line: Seq<char>) -> Option<(Seq<char>, Seq<char>)> {
    pair_from(line, 1)
}

/// The position after the line break at `q`, if one stands there.
pub open spec fn after_break(t: Seq<char>, q: nat) -> Option<nat> {
    if q < t.len() && t[q as int] == '\n' {
        Some(q + 1)
    } else if q + 1 < t.len() && t[q as int] == '\r' && t[q + 1int] == '\n' {
        Some(q + 2)
    } else {
        None
    }
}

/// Whether a line starting with `c` belongs to the block.
pub open spec fn is_block_line_start(c: char) -> bool {
    c != '[' && c != '\r' && c != '\n'
}

/// The value for `key` in the rest of the block, which goes on at position `q`.
pub open spec fn block_value(t: Seq<char>, key: Seq<char>, q: nat) -> Seq<char>
    decreases t.len() - q,
{
    match after_break(t, q) {
        None => seq![],
        Some(q1) => if q1 < t.len() && is_block_line_start(t[q1 as int]) {
            let e = line_end(t, q1);
            // `line_end` stays within `[q1, t.len()]`; the test makes termination evident.
            if e < q1 || e > t.len() {
                seq![]
            } else {
                match line_pair(t.subrange(q1 as int, e as int)) {
                    Some(kv) => if kv.0 == key {
                        kv.1
                    } else {
                        block_value(t, key, e)
                    },
                    None => block_value(t, key, e),
                }
            }
        } else {
            seq![]
        },
    }
}

/// The value that the `[general]` block of `t` gives `key`, or the empty string.
pub open spec fn config_value(t: Seq<char>, key: Seq<char>) -> Seq<char> {
    match find_header(t, 0) {
        Some(h) => block_value(t, key, h + 9),
        None => seq![],
    }
}

/// Whitespace run: from `i`, skipping whitespace stops at `j` when every
/// character in between is whitespace and the one at `j` is not.
proof fn lemma_skip_space_run(s: Seq<char>, i: nat, j: nat)
    requires
        i <= j <= s.len(),
        forall|k: int| i <= k < j ==> is_space(#[trigger] s[k]),
        j < s.len() ==> !is_space(s[j as int]),
    ensures
        skip_space(s, i) == j,
    decreases j - i,
{
    if i < j {
        lemma_skip_space_run(s, i + 1, j);
    }
}

/// A line with no line feed runs to the end of the text.
proof fn lemma_line_end_last(t: Seq<char>, i: nat)
    requires
        i <= t.len(),
        forall|k: int| i <= k < t.len() ==> #[trigger] t[k] != '\n',
    ensures
        line_end(t, i) == t.len(),
    decreases t.len() - i,
{
    if i < t.len() {
        lemma_line_end_last(t, i + 1);
    }
}

/// No shorter key than `key.len()` gives a pair when the key holds no
/// whitespace and no `=`.
proof fn lemma_pair_from_key(line: Seq<char>, key_len: nat, p: nat)
    requires
        1 <= p <= key_len < line.len(),
        forall|k: int| 0 <= k < key_len ==> !is_space(#[trigger] line[k]) && line[k] != '=',
    ensures
        pair_from(line, p) == pair_from(line, key_len),
    decreases key_len - p,
{
    if p < key_len {
        lemma_skip_space_run(line, p, p);
        assert(value_after(line, p) is None);
        lemma_pair_from_key(line, key_len, p + 1);
    }
}

/// The line `key`, whitespace, `=`, whitespace, `"value"` holds the pair (key, value).
proof fn lemma_line_pair_of(key: Seq<char>, before: Seq<char>, after: Seq<char>, value: Seq<char>)
    requires
        key.len() > 0,
        forall|k: int| 0 <= k < key.len() ==> !is_space(#[trigger] key[k]) && key[k] != '=',
        forall|k: int| 0 <= k < before.len() ==> is_space(#[trigger] before[k]),
        forall|k: int| 0 <= k < after.len() ==> is_space(#[trigger] after[k]),
    ensures
        line_pair(key + before + seq!['='] + after + seq!['"'] + value + seq!['"']) == Some((key, value)),
{
    let line = key + before + seq!['='] + after + seq!['"'] + value + seq!['"'];
    let kl = key.len();
    let eq = kl + before.len();
    let qt = eq + 1 + after.len();
    assert forall|k: int| 0 <= k < kl implies !is_space(#[trigger] line[k]) && line[k] != '=' by {
        assert(line[k] == key[k]);
    }
    lemma_pair_from_key(line, kl, 1);
    assert forall|k: int| kl <= k < eq implies is_space(#[trigger] line[k]) by {
        assert(line[k] == before[k - kl]);
    }
    assert(line[eq as int] == '=');
    lemma_skip_space_run(line, kl, eq);
    assert forall|k: int| eq + 1 <= k < qt implies is_space(#[trigger] line[k]) by {
        assert(line[k] == after[k - eq - 1]);
    }
    assert(line[qt as int] == '"');
    lemma_skip_space_run(line, eq + 1, qt);
    assert(line[line.len() - 1] == '"');
    assert(last_quote(line, line.len()) == Some((line.len() - 1) as nat));
    assert(line.subrange(qt + 1int, line.len() - 1) =~= value);
    assert(line.subrange(0, kl as int) =~= key);
    assert(value_after(line, kl) == Some(value));
}

/// In a `[general]` block of one line `key = "value"`, the key gives exactly
/// the quoted value, whatever whitespace stands around the `=`, and any other
/// key gives the empty string.
pub proof fn lemma_value_ignores_spacing(
    key: Seq<char>,
    before: Seq<char>,
    after: Seq<char>,
    value: Seq<char>,
    other: Seq<char>,
)
    requires
        key.len() > 0,
        is_block_line_start(key[0]),
        forall|k: int| 0 <= k < key.len() ==> !is_space(#[trigger] key[k]) && key[k] != '=' && key[k] != '\n',
        forall|k: int| 0 <= k < before.len() ==> is_space(#[trigger] before[k]),
        forall|k: int| 0 <= k < after.len() ==> is_space(#[trigger] after[k]),
        forall|k: int| 0 <= k < value.len() ==> #[trigger] value[k] != '\n',
        other != key,
    ensures
        config_value(general_header() + seq!['\n'] + key + before + seq!['='] + after + seq!['"'] + value + seq!['"'], key) == value,
        config_value(general_header() + seq!['\n'] + key + before + seq!['='] + after + seq!['"'] + value + seq!['"'], other).len() == 0,
{
    let line = key + before + seq!['='] + after + seq!['"'] + value + seq!['"'];
    lemma_line_pair_of(key, before, after, value);
    assert forall|k: int| 0 <= k < line.len() implies #[trigger] line[k] != '\n' by {
        if k < key.len() {
            assert(line[k] == key[k]);
        } else if k < key.len() + before.len() {
            assert(line[k] == before[k - key.len()]);
            assert(is_space(before[k - key.len()]));
        } else if k < key.len() + before.len() + 1 {
        } else if k < key.len() + before.len() + 1 + after.len() {
            assert(line[k] == after[k - key.len() - before.len() - 1]);
            assert(is_space(after[k - key.len() - before.len() - 1]));
        } else if k < key.len() + before.len() + 2 + after.len() {
        } else if k < line.len() - 1 {
            assert(line[k] == value[k - key.len() - before.len() - 2 - after.len()]);
        }
    }
    assert(line[0] == key[0]);
    lemma_block_of_line(line, key, value, other);
    assert(general_header() + seq!['\n'] + line =~= general_header() + seq!['\n'] + key + before + seq!['='] + after + seq!['"'] + value + seq!['"']);
}

/// A `[general]` block of one line without line feeds gives the value of the
/// pair on that line for its key, and the empty string for any other key.
proof fn lemma_block_of_line(line: Seq<char>, key: Seq<char>, value: Seq<char>, other: Seq<char>)
    requires
        line.len() > 0,
        is_block_line_start(line[0]),
        line_pair(line) == Some((key, value)),
        other != key,
        forall|k: int| 0 <= k < line.len() ==> #[trigger] line[k] != '\n',
    ensures
        config_value(general_header() + seq!['\n'] + line, key) == value,
        config_value(general_header() + seq!['\n'] + line, other).len() == 0,
{
    let t = general_header() + seq!['\n'] + line;
    assert(t.subrange(0, 9) =~= general_header());
    assert(header_at(t, 0));
    assert(find_header(t, 0) == Some(0nat));
    assert(t[9] == '\n');
    assert(after_break(t, 9) == Some(10nat));
    assert(t[10] == line[0]);
    assert forall|k: int| 10 <= k < t.len() implies #[trigger] t[k] != '\n' by {
        assert(t[k] == line[k - 10]);
    }
    lemma_line_end_last(t, 10);
    assert(t.subrange(10, t.len() as int) =~= line);
    assert(after_break(t, t.len()) is None);
    assert(block_value(t, other, t.len()) == Seq::<char>::empty());
}

/// Looks up configuration values in the `[general]` block of a text.
pub struct ItemConfig {}

impl ItemConfig {
    /// The value of `var` in the `[general]` block of `text`; the empty string
    /// where the block or the key is absent.
    pub fn get_value_from_config(var: &str, text: &str) -> (r: String)
        ensures
            r@ == config_value(text@, var@),
    {
        let t = chars_of(text);
        let key = chars_of(var);
        match find_header_in(&t) {
            None => String::new(),
            Some(body) => value_in_block(&t, &key, body),
        }
    }
}

/// The position just after the first block header.
fn find_header_in(t: &Vec<char>) -> (r: Option<usize>)
    ensures
        match r {
            Some(b) => 9 <= b <= t@.len() && find_header(t@, 0) == Some((b - 9) as nat),
            None => find_header(t@, 0) is None,
        },
{
    let mut i: usize = 0;
    while t.len() >= 9 && i <= t.len() - 9
        invariant
            find_header(t@, 0) == find_header(t@, i as nat),
        decreases t@.len() - i,
    {
        if (i == 0 || t[i - 1] == '\n') && t[i] == '[' && t[i + 1] == 'g' && t[i + 2] == 'e'
            && t[i + 3] == 'n' && t[i + 4] == 'e' && t[i + 5] == 'r' && t[i + 6] == 'a'
            && t[i + 7] == 'l' && t[i + 8] == ']' {
            assert(t@.subrange(i as int, i + 9int) =~= general_header());
            return Some(i + 9);
        }
        assert(!header_at(t@, i as nat)) by {
            if header_at(t@, i as nat) {
                assert(t@.subrange(i as int, i + 9int)[0] == '[');
                assert(t@.subrange(i as int, i + 9int)[1] == 'g');
                assert(t@.subrange(i as int, i + 9int)[2] == 'e');
                assert(t@.subrange(i as int, i + 9int)[3] == 'n');
                assert(t@.subrange(i as int, i + 9int)[4] == 'e');
                assert(t@.subrange(i as int, i + 9int)[5] == 'r');
                assert(t@.subrange(i as int, i + 9int)[6] == 'a');
                assert(t@.subrange(i as int, i + 9int)[7] == 'l');
                assert(t@.subrange(i as int, i + 9int)[8] == ']');
            }
        }
        i = i + 1;
    }
    None
}

/// The end of the line that holds position `i`.
fn line_end_in(t: &Vec<char>, i: usize) -> (r: usize)
    requires
        i <= t@.len(),
    ensures
        r as nat == line_end(t@, i as nat),
        i <= r <= t@.len(),
{
    let mut j: usize = i;
    while j < t.len() && t[j] != '\n'
        invariant
            i <= j <= t@.len(),
            line_end(t@, i as nat) == line_end(t@, j as nat),
        decreases t@.len() - j,
    {
        j = j + 1;
    }
    j
}

/// Whether `c` is whitespace.
fn is_space_char(c: char) -> (r: bool)
    ensures
        r == is_space(c),
{
    let u = c as u32;
    u == 0x20 || (0x09 <= u && u <= 0x0d && u != 0x0a) || u == 0x85 || u == 0xa0 || u == 0x1680
        || (0x2000 <= u && u <= 0x200a) || u == 0x2028 || u == 0x2029 || u == 0x202f || u == 0x205f
        || u == 0x3000
}

/// The first position at or after `i` that holds no whitespace.
fn skip_space_in(s: &Vec<char>, i: usize) -> (r: usize)
    requires
        i <= s@.len(),
    ensures
        r as nat == skip_space(s@, i as nat),
        i <= r <= s@.len(),
{
    let mut j: usize = i;
    while j < s.len() && is_space_char(s[j])
        invariant
            i <= j <= s@.len(),
            skip_space(s@, i as nat) == skip_space(s@, j as nat),
        decreases s@.len() - j,
    {
        j = j + 1;
    }
    j
}

/// The position of the last quote of `s`.
fn last_quote_in(s: &Vec<char>) -> (r: Option<usize>)
    ensures
        r matches Some(z) ==> z < s@.len(),
        last_quote(s@, s@.len()) == match r {
            Some(z) => Some(z as nat),
            None => None::<nat>,
        },
{
    let mut n: usize = s.len();
    while n > 0 && s[n - 1] != '"'
        invariant
            n <= s@.len(),
            last_quote(s@, s@.len()) == last_quote(s@, n as nat),
        decreases n,
    {
        n = n - 1;
    }
    if n == 0 {
        None
    } else {
        Some(n - 1)
    }
}

/// The bounds of the value after the key `line[..p]`, given the last quote of the line.
fn value_bounds(line: &Vec<char>, p: usize, lq: Option<usize>) -> (r: Option<(usize, usize)>)
    requires
        p < line@.len(),
        last_quote(line@, line@.len()) == match lq {
            Some(z) => Some(z as nat),
            None => None::<nat>,
        },
        lq matches Some(z) ==> z < line@.len(),
    ensures
        match r {
            Some((a, b)) => a <= b <= line@.len() && value_after(line@, p as nat) == Some(
                line@.subrange(a as int, b as int),
            ),
            None => value_after(line@, p as nat) is None,
        },
{
    let q = skip_space_in(line, p);
    if q >= line.len() || line[q] != '=' {
        return None;
    }
    let r = skip_space_in(line, q + 1);
    if r >= line.len() || line[r] != '"' {
        return None;
    }
    match lq {
        Some(z) => if z > r {
            Some((r + 1, z))
        } else {
            None
        },
        None => None,
    }
}

/// The key length and value bounds of the pair that `line` holds.
fn pair_in_line(line: &Vec<char>) -> (r: Option<(usize, usize, usize)>)
    ensures
        match r {
            Some((p, a, b)) => p <= line@.len() && a <= b <= line@.len() && line_pair(line@) == Some(
                (line@.subrange(0, p as int), line@.subrange(a as int, b as int)),
            ),
            None => line_pair(line@) is None,
        },
{
    let lq = last_quote_in(line);
    let mut p: usize = 1;
    while p < line.len()
        invariant
            1 <= p,
            line_pair(line@) == pair_from(line@, p as nat),
            last_quote(line@, line@.len()) == match lq {
                Some(z) => Some(z as nat),
                None => None::<nat>,
            },
            lq matches Some(z) ==> z < line@.len(),
        decreases line@.len() - p,
    {
        match value_bounds(line, p, lq) {
            Some((a, b)) => {
                return Some((p, a, b));
            },
            None => {},
        }
        p = p + 1;
    }
    None
}

/// The characters `t[from..to]`.
fn copy_range(t: &Vec<char>, from: usize, to: usize) -> (r: Vec<char>)
    requires
        from <= to <= t@.len(),
    ensures
        r@ == t@.subrange(from as int, to as int),
{
    let mut out: Vec<char> = Vec::new();
    let mut i: usize = from;
    while i < to
        invariant
            from <= i <= to <= t@.len(),
            out@ == t@.subrange(from as int, i as int),
        decreases to - i,
    {
        out.push(t[i]);
        proof {
            assert(t@.subrange(from as int, i + 1) =~= t@.subrange(from as int, i as int).push(t@[i as int]));
        }
        i = i + 1;
    }
    out
}

/// Whether `a[..n]` equals `b`.
fn prefix_equals(a: &Vec<char>, n: usize, b: &Vec<char>) -> (r: bool)
    requires
        n <= a@.len(),
    ensures
        r == (a@.subrange(0, n as int) == b@),
{
    if n != b.len() {
        assert(a@.subrange(0, n as int).len() != b@.len());
        return false;
    }
    let mut i: usize = 0;
    while i < n
        invariant
            i <= n <= a@.len(),
            n == b@.len(),
            forall|j: int| 0 <= j < i ==> a@[j] == b@[j],
        decreases n - i,
    {
        if a[i] != b[i] {
            assert(a@.subrange(0, n as int)[i as int] != b@[i as int]);
            return false;
        }
        i = i + 1;
    }
    assert(a@.subrange(0, n as int) =~= b@);
    true
}

/// The value for `key` in the block that goes on at `start`.
fn value_in_block(t: &Vec<char>, key: &Vec<char>, start: usize) -> (r: String)
    requires
        start <= t@.len(),
    ensures
        r@ == block_value(t@, key@, start as nat),
{
    let mut q: usize = start;
    loop
        invariant
            q <= t@.len(),
            block_value(t@, key@, start as nat) == block_value(t@, key@, q as nat),
        decreases t@.len() - q,
    {
        let q1: usize;
        if q < t.len() && t[q] == '\n' {
            q1 = q + 1;
        } else if t.len() >= 2 && q < t.len() - 1 && t[q] == '\r' && t[q + 1] == '\n' {
            q1 = q + 2;
        } else {
            return String::new();
        }
        if q1 < t.len() && t[q1] != '[' && t[q1] != '\r' && t[q1] != '\n' {
            let e = line_end_in(t, q1);
            let line = copy_range(t, q1, e);
            match pair_in_line(&line) {
                Some((p, a, b)) => {
                    if prefix_equals(&line, p, key) {
                        return string_from(&line, a, b);
                    }
                },
                None => {},
            }
            q = e;
        } else {
            return String::new();
        }
    }
}

/// The number that a string of decimal digits denotes.
pub open spec fn digits_value(s: Seq<char>) -> int
    decreases s.len(),
{
    if s.len() == 0 {
        0
    } else {
        10 * digits_value(s.drop_last()) + (s.last() as u32 - '0' as u32)
    }
}

/// Whether every character is a decimal digit.
pub open spec fn is_digits(s: Seq<char>) -> bool {
    forall|i: int| 0 <= i < s.len() ==> '0' <= #[trigger] s[i] && s[i] <= '9'
}

/// The digits of an unsigned number, after an optional leading `+`.
pub open spec fn unsigned_digits(s: Seq<char>) -> Seq<char> {
    if s.len() > 0 && s[0] == '+' {
        s.drop_first()
    } else {
        s
    }
}

/// The unsigned number `s` denotes, if it is one no greater than `max`.
pub open spec fn parse_unsigned(s: Seq<char>, max: int) -> Option<int> {
    let d = unsigned_digits(s);
    if d.len() > 0 && is_digits(d) && digits_value(d) <= max {
        Some(digits_value(d))
    } else {
        None
    }
}

/// The defaulting policy for numeric fields: the parsed number, or zero.
pub open spec fn number_or_zero(s: Seq<char>, max: int) -> int {
    match parse_unsigned(s, max) {
        Some(v) => v,
        None => 0,
    }
}

/// The defaulting policy for boolean fields: `true` only for the text `true`.
pub open spec fn flag_or_false(s: Seq<char>) -> bool {
    s == seq!['t', 'r', 'u', 'e']
}

/// A prefix of a digit string denotes no more than the whole string.
pub proof fn lemma_digits_prefix(s: Seq<char>, k: nat)
    requires
        k <= s.len(),
        is_digits(s),
    ensures
        digits_value(s.subrange(0, k as int)) <= digits_value(s),
        0 <= digits_value(s),
    decreases s.len(),
{
    if s.len() > 0 {
        let t = s.drop_last();
        assert(is_digits(t)) by {
            assert forall|i: int| 0 <= i < t.len() implies '0' <= #[trigger] t[i] && t[i] <= '9' by {
                assert(t[i] == s[i]);
            }
        }
        assert('0' <= s[s.len() - 1]);
        if k < s.len() {
            lemma_digits_prefix(t, k);
            assert(t.subrange(0, k as int) =~= s.subrange(0, k as int));
        } else {
            lemma_digits_prefix(t, 0);
            assert(s.subrange(0, k as int) =~= s);
        }
    }
}

/// Parses `value` as an unsigned decimal number no greater than `max`, with
/// zero in place of anything that is not one.
pub fn number_or_default(value: &str, max: u32) -> (r: u32)
    ensures
        r as int == number_or_zero(value@, max as int),
        r <= max,
{
    let t = chars_of(value);
    let start: usize = if t.len() > 0 && t[0] == '+' { 1 } else { 0 };
    let ghost d = unsigned_digits(value@);
    assert(d =~= t@.subrange(start as int, t@.len() as int));
    if start >= t.len() {
        return 0;
    }
    let mut acc: u64 = 0;
    let mut i: usize = start;
    while i < t.len()
        invariant
            start <= i <= t@.len(),
            t@ == value@,
            d == t@.subrange(start as int, t@.len() as int),
            d == unsigned_digits(value@),
            d.len() > 0,
            is_digits(d.subrange(0, i - start)),
            acc as int == digits_value(d.subrange(0, i - start)),
            acc <= max,
        decreases t@.len() - i,
    {
        let c = t[i];
        let ghost pre = d.subrange(0, i - start);
        let ghost next = d.subrange(0, i + 1 - start);
        assert(next.drop_last() =~= pre);
        assert(d[i - start] == c);
        assert(next.last() == c);
        if c < '0' || c > '9' {
            proof {
                if is_digits(d) {
                    assert('0' <= d[i - start] && d[i - start] <= '9');
                }
            }
            return 0;
        }
        acc = acc * 10 + (c as u32 - '0' as u32) as u64;
        assert(is_digits(next)) by {
            assert forall|j: int| 0 <= j < next.len() implies '0' <= #[trigger] next[j] && next[j] <= '9' by {
                if j < pre.len() {
                    assert(next[j] == pre[j]);
                }
            }
        }
        assert(acc as int == digits_value(next));
        if acc > max as u64 {
            proof {
                if is_digits(d) {
                    lemma_digits_prefix(d, (i + 1 - start) as nat);
                }
            }
            return 0;
        }
        i = i + 1;
    }
    assert(d.subrange(0, i - start) =~= d);
    acc as u32
}

/// Reads `value` as a boolean, with `false` in place of anything that is not one.
pub fn flag_or_default(value: &str) -> (r: bool)
    ensures
        r == flag_or_false(value@),
{
    let t = chars_of(value);
    if t.len() == 4 && t[0] == 't' && t[1] == 'r' && t[2] == 'u' && t[3] == 'e' {
        assert(t@ =~= seq!['t', 'r', 'u', 'e']);
        true
    } else {
        assert(t@.len() != 4 ==> t@ != seq!['t', 'r', 'u', 'e']);
        false
    }
}

} // verus!
