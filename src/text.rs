//! Null-terminated strings, narrow and wide, and the string table of the
//! newer file revision.

use vstd::prelude::*;

use crate::bytes::{fits, le_u16, le_u32, le_u64, take_u16, take_u32, take_u64, take_u8};
use crate::error::VdfrError;

verus! {

/// What `String::from_utf8_lossy` makes of a byte sequence.
pub uninterp spec fn utf8_lossy(b: Seq<u8>) -> Seq<char>;

/// What `String::from_utf16_lossy` makes of a sequence of UTF-16 code units.
pub uninterp spec fn utf16_lossy(u: Seq<u16>) -> Seq<char>;

/// Whether every byte is below 0x80.
pub open spec fn is_ascii_bytes(b: Seq<u8>) -> bool {
    forall|i: int| 0 <= i < b.len() ==> b[i] < 0x80
}

/// The characters of ASCII bytes, one per byte.
pub open spec fn ascii_chars(b: Seq<u8>) -> Seq<char> {
    b.map_values(|x: u8| x as char)
}

/// Relies on `String::from_utf8_lossy`: a function of the bytes alone, which
/// returns valid UTF-8 (ASCII in particular) unchanged.
#[verifier::external_body]
fn lossy_narrow(b: &Vec<u8>) -> (r: String)
    ensures
        r@ == utf8_lossy(b@),
        is_ascii_bytes(b@) ==> r@ == ascii_chars(b@),
{
    String::from_utf8_lossy(b).into_owned()
}

/// Relies on `String::from_utf16_lossy`: a function of the code units alone.
#[verifier::external_body]
fn lossy_wide(u: &Vec<u16>) -> (r: String)
    ensures
        r@ == utf16_lossy(u@),
{
    String::from_utf16_lossy(u)
}

/// The position of the first zero byte at or after `p`, if any.
pub open spec fn zero_from(s: Seq<u8>, p: int) -> Option<int>
    decreases s.len() - p,
{
    if p < 0 || p >= s.len() {
        None
    } else if s[p] == 0 {
        Some(p)
    } else {
        zero_from(s, p + 1)
    }
}

/// The narrow string at `p` and the position after its terminator.
pub open spec fn narrow_string_at(s: Seq<u8>, p: int) -> Result<(Seq<char>, int), VdfrError> {
    match zero_from(s, p) {
        Some(z) => Ok((utf8_lossy(s.subrange(p, z)), z + 1)),
        None => Err(VdfrError::ReadError),
    }
}

/// The number of wide code units before the first zero unit, counting from
/// the `n`-th unit at `p`.
pub open spec fn wide_len_from(s: Seq<u8>, p: int, n: int) -> Option<int>
    decreases s.len() - (p + 2 * n),
{
    if p < 0 || n < 0 || p + 2 * n + 2 > s.len() {
        None
    } else if le_u16(s, p + 2 * n) == 0 {
        Some(n)
    } else {
        wide_len_from(s, p, n + 1)
    }
}

/// The first `n` little-endian code units at `p`.
pub open spec fn wide_units(s: Seq<u8>, p: int, n: int) -> Seq<u16> {
    Seq::new(n as nat, |i: int| le_u16(s, p + 2 * i) as u16)
}

/// The wide string at `p` and the position after its terminator.
pub open spec fn wide_string_at(s: Seq<u8>, p: int) -> Result<(Seq<char>, int), VdfrError> {
    match wide_len_from(s, p, 0) {
        Some(n) => Ok((utf16_lossy(wide_units(s, p, n)), p + 2 * n + 2)),
        None => Err(VdfrError::ReadError),
    }
}

/// The string at `p`, wide or narrow.
pub open spec fn string_at(s: Seq<u8>, p: int, wide: bool) -> Result<(Seq<char>, int), VdfrError> {
    if wide {
        wide_string_at(s, p)
    } else {
        narrow_string_at(s, p)
    }
}

/// The model of a decoded string and the position after it.
pub open spec fn string_result(r: Result<(String, usize), VdfrError>) -> Result<
    (Seq<char>, int),
    VdfrError,
> {
    match r {
        Ok((x, q)) => Ok((x@, q as int)),
        Err(e) => Err(e),
    }
}

fn read_narrow(data: &[u8], pos: usize) -> (r: Result<(String, usize), VdfrError>)
    requires
        pos <= data@.len(),
    ensures
        string_result(r) == narrow_string_at(data@, pos as int),
        r matches Ok((_, q)) ==> pos < q <= data@.len(),
        r matches Ok((x, q)) ==> (is_ascii_bytes(data@.subrange(pos as int, q - 1)) ==> x@
            == ascii_chars(data@.subrange(pos as int, q - 1))),
{
    let mut buf: Vec<u8> = Vec::new();
    let mut cur: usize = pos;
    let len: usize = data.len();
    loop
        invariant
            len == data@.len(),
            pos <= cur <= data@.len(),
            buf@ == data@.subrange(pos as int, cur as int),
            zero_from(data@, pos as int) == zero_from(data@, cur as int),
        decreases data@.len() - cur,
    {
        let c = match take_u8(data, cur) {
            Ok(c) => c,
            Err(e) => return Err(e),
        };
        if c == 0 {
            let s = lossy_narrow(&buf);
            return Ok((s, cur + 1));
        }
        buf.push(c);
        cur = cur + 1;
        assert(buf@ =~= data@.subrange(pos as int, cur as int));
    }
}

fn read_wide(data: &[u8], pos: usize) -> (r: Result<(String, usize), VdfrError>)
    requires
        pos <= data@.len(),
    ensures
        string_result(r) == wide_string_at(data@, pos as int),
        r matches Ok((_, q)) ==> pos < q <= data@.len(),
{
    let mut buf: Vec<u16> = Vec::new();
    let mut cur: usize = pos;
    let len: usize = data.len();
    loop
        invariant
            len == data@.len(),
            pos <= cur <= data@.len(),
            cur == pos + 2 * buf@.len(),
            buf@ == wide_units(data@, pos as int, buf@.len() as int),
            wide_len_from(data@, pos as int, 0) == wide_len_from(
                data@,
                pos as int,
                buf@.len() as int,
            ),
        decreases data@.len() - cur,
    {
        let c = match take_u16(data, cur) {
            Ok(c) => c,
            Err(e) => return Err(e),
        };
        if c == 0 {
            let s = lossy_wide(&buf);
            return Ok((s, cur + 2));
        }
        let ghost n = buf@.len() as int;
        buf.push(c);
        cur = cur + 2;
        assert(buf@ =~= wide_units(data@, pos as int, n + 1));
    }
}

/// Read the null-terminated string at `pos`: one byte per unit when narrow,
/// two little-endian bytes per unit when wide. Returns the decoded text and
/// the position after the terminator; `ReadError` if no terminator comes.
pub fn read_string(data: &[u8], pos: usize, wide: bool) -> (r: Result<(String, usize), VdfrError>)
    requires
        pos <= data@.len(),
    ensures
        string_result(r) == string_at(data@, pos as int, wide),
        r matches Ok((_, q)) ==> pos < q <= data@.len(),
        !wide ==> (r matches Ok((x, q)) ==> (is_ascii_bytes(data@.subrange(pos as int, q - 1))
            ==> x@ == ascii_chars(data@.subrange(pos as int, q - 1)))),
{
    if wide {
        read_wide(data, pos)
    } else {
        read_narrow(data, pos)
    }
}

/// `cur` as a one-element sequence, or nothing if it is empty.
pub open spec fn flush(cur: Seq<u8>) -> Seq<Seq<u8>> {
    if cur.len() > 0 {
        seq![cur]
    } else {
        Seq::empty()
    }
}

/// The non-empty runs of non-zero bytes from `i` to the end, where `cur` is
/// the run already begun before `i`.
pub open spec fn runs_from(s: Seq<u8>, i: int, cur: Seq<u8>) -> Seq<Seq<u8>>
    decreases s.len() - i,
{
    if i < 0 || i >= s.len() {
        flush(cur)
    } else if s[i] == 0 {
        flush(cur) + runs_from(s, i + 1, Seq::empty())
    } else {
        runs_from(s, i + 1, cur.push(s[i]))
    }
}

/// The strings of a table: the non-empty zero-delimited runs from `p` to the
/// end, each decoded as narrow text.
pub open spec fn fragments_at(s: Seq<u8>, p: int) -> Seq<Seq<char>> {
    lossy_all(runs_from(s, p, Seq::empty()))
}

/// Each byte run decoded as narrow text.
pub open spec fn lossy_all(t: Seq<Seq<u8>>) -> Seq<Seq<char>> {
    t.map_values(|b: Seq<u8>| utf8_lossy(b))
}

/// The string table referred to by the 8-byte offset at `p`, and the position
/// after that offset. The table holds a 4-byte count and then strings up to
/// the end of the input; the count must match.
pub open spec fn string_table_at(s: Seq<u8>, p: int) -> Result<(Seq<Seq<char>>, int), VdfrError> {
    if !fits(s, p, 8) {
        Err(VdfrError::ReadError)
    } else {
        let off = le_u64(s, p);
        if !fits(s, off, 4) {
            Err(VdfrError::ReadError)
        } else {
            let strings = fragments_at(s, off + 4);
            if strings.len() != le_u32(s, off) {
                Err(
                    VdfrError::StringTableMismatch {
                        declared: le_u32(s, off) as u32,
                        found: strings.len() as usize,
                    },
                )
            } else {
                Ok((strings, p + 8))
            }
        }
    }
}

/// The characters of each string of a table.
pub open spec fn table_model(t: Seq<String>) -> Seq<Seq<char>> {
    t.map_values(|x: String| x@)
}

/// The model of a decoded table and the position after its offset.
pub open spec fn table_result(r: Result<(Vec<String>, usize), VdfrError>) -> Result<
    (Seq<Seq<char>>, int),
    VdfrError,
> {
    match r {
        Ok((t, q)) => Ok((table_model(t@), q as int)),
        Err(e) => Err(e),
    }
}

/// Split the bytes from `start` to the end into non-empty zero-delimited runs
/// and decode each as narrow text.
fn split_fragments(data: &[u8], start: usize) -> (r: Vec<String>)
    requires
        start <= data@.len(),
    ensures
        table_model(r@) == fragments_at(data@, start as int),
{
    let len: usize = data.len();
    let mut out: Vec<String> = Vec::new();
    let mut cur: Vec<u8> = Vec::new();
    let ghost mut done: Seq<Seq<u8>> = Seq::empty();
    let mut i: usize = start;
    while i < len
        invariant
            len == data@.len(),
            start <= i <= len,
            runs_from(data@, start as int, Seq::empty()) == done + runs_from(data@, i as int, cur@),
            table_model(out@) == lossy_all(done),
        decreases len - i,
    {
        let b = data[i];
        if b == 0 {
            let ghost before = done;
            if cur.len() > 0 {
                let ghost out_before = out@;
                let s = lossy_narrow(&cur);
                out.push(s);
                proof {
                    assert(table_model(out@) =~= table_model(out_before).push(s@));
                    assert(lossy_all(done.push(cur@)) =~= lossy_all(done).push(utf8_lossy(cur@)));
                    done = done.push(cur@);
                }
            }
            proof {
                assert(done =~= before + flush(cur@));
                assert(before + (flush(cur@) + runs_from(data@, i + 1, Seq::empty())) =~= done
                    + runs_from(data@, i + 1, Seq::empty()));
            }
            cur = Vec::new();
        } else {
            cur.push(b);
        }
        i = i + 1;
    }
    if cur.len() > 0 {
        let ghost out_before = out@;
        let s = lossy_narrow(&cur);
        out.push(s);
        proof {
            assert(done + flush(cur@) =~= done.push(cur@));
            assert(table_model(out@) =~= table_model(out_before).push(s@));
            assert(lossy_all(done.push(cur@)) =~= lossy_all(done).push(utf8_lossy(cur@)));
            done = done.push(cur@);
        }
    } else {
        assert(done + flush(cur@) =~= done);
    }
    out
}

/// Read the string table: the 8-byte offset at `pos` gives where the table
/// lies; there a 4-byte count precedes the strings, which run to the end of
/// the input. Returns the strings and the position after the offset, which
/// is where decoding carries on. A count that does not match the strings
/// found is a `StringTableMismatch`.
pub fn read_string_table(data: &[u8], pos: usize) -> (r: Result<(Vec<String>, usize), VdfrError>)
    requires
        pos <= data@.len(),
    ensures
        table_result(r) == string_table_at(data@, pos as int),
        r matches Ok((_, q)) ==> q == pos + 8 && q <= data@.len(),
{
    let off = match take_u64(data, pos) {
        Ok(v) => v,
        Err(e) => return Err(e),
    };
    if off > data.len() as u64 {
        return Err(VdfrError::ReadError);
    }
    let off = off as usize;
    let count = match take_u32(data, off) {
        Ok(v) => v,
        Err(e) => return Err(e),
    };
    let table = split_fragments(data, off + 4);
    if table.len() as u64 != count as u64 {
        return Err(VdfrError::StringTableMismatch { declared: count, found: table.len() });
    }
    Ok((table, pos + 8))
}

} // verus!
