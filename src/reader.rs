//! Readers for the binary ordering file and the category file.
//!
//! Both files are little-endian. A string is a run of bytes ended by a zero
//! byte (or by the end of the data); each byte becomes the character with
//! the same code point. A read past the end of the data yields zero and
//! leaves the cursor at the end, as a short read from a stream does.
use vstd::prelude::*;
use vstd::string::*;
use crate::text::push_char;

verus! {

/// Why an ordering-file section was rejected.
#[derive(Debug, Clone, Copy, PartialEq, Eq, Structural)]
pub enum FormatError {
    /// The section did not start with the string `order.roa`.
    BadMagic,
    /// The byte after the magic string was not `1`.
    BadFlag,
    /// The 16-bit field after the item count was not `0`.
    BadReserved,
}

/// The magic string `order.roa` that opens every section.
pub open spec fn order_magic() -> Seq<u8> {
    seq![111u8, 114u8, 100u8, 101u8, 114u8, 46u8, 114u8, 111u8, 97u8]
}

/// Characters with the code points of the given bytes.
pub open spec fn latin1(s: Seq<u8>) -> Seq<char> {
    s.map_values(|b: u8| b as char)
}

/// Number of bytes from `pos` up to the first zero byte or the end.
pub open spec fn cstr_len(data: Seq<u8>, pos: nat) -> nat
    decreases data.len() - pos,
{
    if pos >= data.len() || data[pos as int] == 0 {
        0
    } else {
        1 + cstr_len(data, pos + 1)
    }
}

/// The zero-terminated string at `pos`, and the position after its terminator.
pub open spec fn cstr_at(data: Seq<u8>, pos: nat) -> (Seq<u8>, nat) {
    let end = pos + cstr_len(data, pos);
    (data.subrange(pos as int, end as int), if end < data.len() { end + 1 } else { end })
}

/// The byte at `pos`, or zero at the end of the data.
pub open spec fn u8_at(data: Seq<u8>, pos: nat) -> (u8, nat) {
    if pos < data.len() {
        (data[pos as int], pos + 1)
    } else {
        (0, data.len())
    }
}

/// The little-endian 16-bit value at `pos`, or zero when fewer than two bytes remain.
pub open spec fn u16_at(data: Seq<u8>, pos: nat) -> (u16, nat) {
    if pos + 2 <= data.len() {
        ((data[pos as int] as int + 256 * data[pos + 1int] as int) as u16, pos + 2)
    } else {
        (0, data.len())
    }
}

/// `n` consecutive strings starting at `pos`, and the position after them.
pub open spec fn strings_at(data: Seq<u8>, pos: nat, n: nat) -> (Seq<Seq<char>>, nat)
    decreases n,
{
    if n == 0 {
        (seq![], pos)
    } else {
        let (prev, p) = strings_at(data, pos, (n - 1) as nat);
        let (s, q) = cstr_at(data, p);
        (prev.push(latin1(s)), q)
    }
}

/// One section of the ordering file at `pos`: its paths and the position after it,
/// or the first fixed field that does not hold its required value.
pub open spec fn order_section(data: Seq<u8>, pos: nat) -> Result<(Seq<Seq<char>>, nat), FormatError> {
    let (magic, at_flag) = cstr_at(data, pos);
    let (flag, at_count) = u8_at(data, at_flag);
    let (count, at_reserved) = u16_at(data, at_count);
    let (reserved, at_paths) = u16_at(data, at_reserved);
    if magic != order_magic() {
        Err(FormatError::BadMagic)
    } else if flag != 1 {
        Err(FormatError::BadFlag)
    } else if reserved != 0 {
        Err(FormatError::BadReserved)
    } else {
        Ok(strings_at(data, at_paths, count as nat))
    }
}

/// `n` consecutive (offset, name) records starting at `pos`, and the position after them.
pub open spec fn categories_at(data: Seq<u8>, pos: nat, n: nat) -> (Seq<(Seq<char>, u16)>, nat)
    decreases n,
{
    if n == 0 {
        (seq![], pos)
    } else {
        let (prev, p) = categories_at(data, pos, (n - 1) as nat);
        let (offset, at_name) = u16_at(data, p);
        let (name, next) = cstr_at(data, at_name);
        (prev.push((latin1(name), offset)), next)
    }
}

/// The (name, offset) list of a category file.
pub open spec fn categories_file(data: Seq<u8>) -> Seq<(Seq<char>, u16)> {
    let (count, p) = u16_at(data, 0);
    categories_at(data, p, count as nat).0
}

/// The four sections of an ordering file, in their fixed order: characters,
/// buddies, stages and skins; or the error of the first section that fails.
pub open spec fn order_file(data: Seq<u8>) -> Result<Seq<Seq<Seq<char>>>, FormatError> {
    match order_section(data, 0) {
        Err(e) => Err(e),
        Ok((characters, after_characters)) => match order_section(data, after_characters) {
            Err(e) => Err(e),
            Ok((buddies, after_buddies)) => match order_section(data, after_buddies) {
                Err(e) => Err(e),
                Ok((stages, after_stages)) => match order_section(data, after_stages) {
                    Err(e) => Err(e),
                    Ok((skins, _)) => Ok(seq![characters, buddies, stages, skins]),
                },
            },
        },
    }
}

/// The path lists of an ordering file.
pub struct OrderPaths {
    pub characters: Vec<String>,
    pub buddies: Vec<String>,
    pub stages: Vec<String>,
    pub skins: Vec<String>,
}

impl OrderPaths {
    /// The four lists, in file order.
    pub open spec fn view_lists(&self) -> Seq<Seq<Seq<char>>> {
        seq![
            strings_view(self.characters@),
            strings_view(self.buddies@),
            strings_view(self.stages@),
            strings_view(self.skins@),
        ]
    }
}

/// The views of a list of strings.
pub open spec fn strings_view(v: Seq<String>) -> Seq<Seq<char>> {
    v.map_values(|s: String| s@)
}

/// The views of a list of (name, offset) pairs.
pub open spec fn pairs_view(v: Seq<(String, u16)>) -> Seq<(Seq<char>, u16)> {
    v.map_values(|c: (String, u16)| (c.0@, c.1))
}

/// Distinct byte strings have distinct character strings.
proof fn lemma_latin1_injective(s: Seq<char>, a: Seq<u8>, b: Seq<u8>)
    requires
        s == latin1(a),
    ensures
        (s == latin1(b)) == (a == b),
{
    if s == latin1(b) {
        assert(latin1(a).len() == a.len());
        assert(latin1(b).len() == b.len());
        assert forall|j: int| 0 <= j < a.len() implies a[j] == b[j] by {
            assert(latin1(a)[j] == latin1(b)[j]);
            assert((a[j] as char) as u32 == a[j] as u32);
            assert((b[j] as char) as u32 == b[j] as u32);
        }
        assert(a =~= b);
    }
}

/// Reads one byte at `pos`.
pub fn read_u8(data: &[u8], pos: usize) -> (r: (u8, usize))
    requires
        pos <= data@.len(),
    ensures
        (r.0, r.1 as nat) == u8_at(data@, pos as nat),
        r.1 <= data@.len(),
{
    if pos < data.len() {
        (data[pos], pos + 1)
    } else {
        (0, data.len())
    }
}

/// Reads a little-endian 16-bit value at `pos`.
pub fn read_u16(data: &[u8], pos: usize) -> (r: (u16, usize))
    requires
        pos <= data@.len(),
    ensures
        (r.0, r.1 as nat) == u16_at(data@, pos as nat),
        r.1 <= data@.len(),
{
    if data.len() >= 2 && pos <= data.len() - 2 {
        let lo = data[pos] as u16;
        let hi = data[pos + 1] as u16;
        (lo + 256 * hi, pos + 2)
    } else {
        (0, data.len())
    }
}

/// Reads the zero-terminated string at `pos`, one character per byte.
pub fn read_string(data: &[u8], pos: usize) -> (r: (String, usize))
    requires
        pos <= data@.len(),
    ensures
        r.0@ == latin1(cstr_at(data@, pos as nat).0),
        r.1 as nat == cstr_at(data@, pos as nat).1,
        r.1 <= data@.len(),
{
    let mut s = String::new();
    let mut i: usize = pos;
    while i < data.len() && data[i] != 0
        invariant
            pos <= i <= data@.len(),
            cstr_len(data@, pos as nat) == (i - pos) + cstr_len(data@, i as nat),
            s@ == latin1(data@.subrange(pos as int, i as int)),
        decreases data@.len() - i,
    {
        push_char(&mut s, data[i] as char);
        proof {
            assert(data@.subrange(pos as int, i + 1) == data@.subrange(pos as int, i as int).push(data@[i as int]));
        }
        i = i + 1;
    }
    let next = if i < data.len() { i + 1 } else { i };
    (s, next)
}

/// Reads the `n` strings that start at `pos`.
fn read_strings(data: &[u8], pos: usize, n: u16) -> (r: (Vec<String>, usize))
    requires
        pos <= data@.len(),
    ensures
        (strings_view(r.0@), r.1 as nat) == strings_at(data@, pos as nat, n as nat),
        r.1 <= data@.len(),
{
    let mut paths: Vec<String> = Vec::new();
    let mut p: usize = pos;
    let mut k: u16 = 0;
    while k < n
        invariant
            k <= n,
            p <= data@.len(),
            (strings_view(paths@), p as nat) == strings_at(data@, pos as nat, k as nat),
        decreases n - k,
    {
        let (s, q) = read_string(data, p);
        proof {
            let (prev, pp) = strings_at(data@, pos as nat, k as nat);
            assert(strings_view(paths@.push(s)) == strings_view(paths@).push(s@));
        }
        paths.push(s);
        p = q;
        k = k + 1;
    }
    (paths, p)
}

/// Reads one section of the ordering file at `pos`: the magic string, a flag
/// byte that must be `1`, the item count, a reserved 16-bit field that must be
/// `0`, and then that many paths. Returns the paths and the position after the
/// section, so that the four sections of the file are read by four calls.
pub fn parse_order_section(data: &[u8], pos: usize) -> (r: Result<(Vec<String>, usize), FormatError>)
    requires
        pos <= data@.len(),
    ensures
        match r {
            Ok((paths, next)) => order_section(data@, pos as nat) == Ok::<(Seq<Seq<char>>, nat), FormatError>(
                (strings_view(paths@), next as nat),
            ),
            Err(e) => order_section(data@, pos as nat) == Err::<(Seq<Seq<char>>, nat), FormatError>(e),
        },
        r matches Ok((_, next)) ==> next <= data@.len(),
{
    let (magic, at_flag) = read_string(data, pos);
    let (flag, at_count) = read_u8(data, at_flag);
    let (count, at_reserved) = read_u16(data, at_count);
    let (reserved, at_paths) = read_u16(data, at_reserved);
    proof {
        lemma_latin1_injective(magic@, cstr_at(data@, pos as nat).0, order_magic());
    }
    if !is_order_magic(&magic) {
        return Err(FormatError::BadMagic);
    }
    if flag != 1 {
        return Err(FormatError::BadFlag);
    }
    if reserved != 0 {
        return Err(FormatError::BadReserved);
    }
    let (paths, next) = read_strings(data, at_paths, count);
    Ok((paths, next))
}

/// Reads the four sections of an ordering file from its start: the
/// characters, buddies, stages and skins paths, in that order.
pub fn parse_order_file(data: &[u8]) -> (r: Result<OrderPaths, FormatError>)
    ensures
        match r {
            Ok(paths) => order_file(data@) == Ok::<Seq<Seq<Seq<char>>>, FormatError>(paths.view_lists()),
            Err(e) => order_file(data@) == Err::<Seq<Seq<Seq<char>>>, FormatError>(e),
        },
{
    let (characters, after_characters) = match parse_order_section(data, 0) {
        Ok(v) => v,
        Err(e) => return Err(e),
    };
    let (buddies, after_buddies) = match parse_order_section(data, after_characters) {
        Ok(v) => v,
        Err(e) => return Err(e),
    };
    let (stages, after_stages) = match parse_order_section(data, after_buddies) {
        Ok(v) => v,
        Err(e) => return Err(e),
    };
    let (skins, _) = match parse_order_section(data, after_stages) {
        Ok(v) => v,
        Err(e) => return Err(e),
    };
    Ok(OrderPaths { characters, buddies, stages, skins })
}

/// Whether the characters of `s` are those of the magic string.
fn is_order_magic(s: &String) -> (r: bool)
    ensures
        r == (s@ == latin1(order_magic())),
{
    let expected = "order.roa";
    proof {
        reveal_strlit("order.roa");
        assert(latin1(order_magic()) =~= expected@);
    }
    let t = s.as_str();
    let n = t.unicode_len();
    if n != 9 {
        return false;
    }
    let mut i: usize = 0;
    while i < 9
        invariant
            i <= 9,
            t@.len() == 9,
            expected@ == latin1(order_magic()),
            t@ == s@,
            forall|j: int| 0 <= j < i ==> t@[j] == expected@[j],
        decreases 9 - i,
    {
        if t.get_char(i) != expected.get_char(i) {
            assert(t@[i as int] != latin1(order_magic())[i as int]);
            return false;
        }
        i = i + 1;
    }
    assert(t@ =~= expected@);
    true
}

/// Reads a category file: a 16-bit count, then for each category its 16-bit
/// offset into the character path list and its name, in file order.
pub fn parse_categories_section(data: &[u8]) -> (r: Vec<(String, u16)>)
    ensures
        pairs_view(r@) == categories_file(data@),
{
    let (count, start) = read_u16(data, 0);
    let mut cats: Vec<(String, u16)> = Vec::new();
    let mut p: usize = start;
    let mut k: u16 = 0;
    while k < count
        invariant
            k <= count,
            p <= data@.len(),
            u16_at(data@, 0) == (count, start as nat),
            (pairs_view(cats@), p as nat) == categories_at(data@, start as nat, k as nat),
        decreases count - k,
    {
        let (offset, at_name) = read_u16(data, p);
        let (name, next) = read_string(data, at_name);
        proof {
            assert(pairs_view(cats@.push((name, offset))) == pairs_view(cats@).push((name@, offset)));
        }
        cats.push((name, offset));
        p = next;
        k = k + 1;
    }
    cats
}

} // verus!
