//! How a tree is written: its byte encoding, and the law that decoding an
//! encoded tree gives the tree back.

use vstd::arithmetic::div_mod::{lemma_div_denominator, lemma_fundamental_div_mod, lemma_small_mod};
use vstd::prelude::*;

use crate::bytes::{fits, le_u16, le_u32, le_u64};
use crate::error::VdfrError;
use crate::tree::{
    end_tag, key_at, scalar_at, tree_at, tree_from, BIN_COLOR, BIN_END, BIN_END_ALT, BIN_FLOAT32,
    BIN_INT32, BIN_INT64, BIN_NONE, BIN_POINTER, BIN_STRING, BIN_UINT64, BIN_WIDESTRING, MAX_DEPTH,
};
use crate::value::{key_index, key_index_from, keys_unique, tree_insert, TreeModel, ValueModel};
use crate::text::{narrow_string_at, utf16_lossy, utf8_lossy, wide_len_from, wide_string_at, wide_units, zero_from};

verus! {

/// The two little-endian bytes of `n`.
pub open spec fn bytes2(n: int) -> Seq<u8> {
    seq![(n % 256) as u8, ((n / 256) % 256) as u8]
}

/// The four little-endian bytes of `n`.
pub open spec fn bytes4(n: int) -> Seq<u8> {
    seq![
        (n % 256) as u8,
        ((n / 256) % 256) as u8,
        ((n / 65536) % 256) as u8,
        ((n / 16777216) % 256) as u8,
    ]
}

/// The eight little-endian bytes of `n`.
pub open spec fn bytes8(n: int) -> Seq<u8> {
    bytes4(n % 0x1_0000_0000) + bytes4(n / 0x1_0000_0000)
}

/// The 32-bit pattern of a signed value.
pub open spec fn unsigned32(x: int) -> int {
    if x < 0 {
        x + 0x1_0000_0000
    } else {
        x
    }
}

/// The 64-bit pattern of a signed value.
pub open spec fn unsigned64(x: int) -> int {
    if x < 0 {
        x + 0x1_0000_0000_0000_0000
    } else {
        x
    }
}

/// Whether no byte is zero.
pub open spec fn no_zero(b: Seq<u8>) -> bool {
    forall|i: int| 0 <= i < b.len() ==> b[i] != 0
}

/// Whether no code unit is zero.
pub open spec fn no_zero_unit(u: Seq<u16>) -> bool {
    forall|i: int| 0 <= i < u.len() ==> u[i] != 0
}

/// The little-endian bytes of code units, two per unit.
pub open spec fn units_bytes(u: Seq<u16>) -> Seq<u8>
    decreases u.len(),
{
    if u.len() == 0 {
        Seq::empty()
    } else {
        units_bytes(u.drop_last()) + bytes2(u.last() as int)
    }
}

/// A split of a run of bytes in two.
proof fn lemma_split(s: Seq<u8>, p: int, x: Seq<u8>, y: Seq<u8>)
    requires
        0 <= p,
        p + x.len() + y.len() <= s.len(),
        s.subrange(p, p + x.len() + y.len()) == x + y,
    ensures
        s.subrange(p, p + x.len()) == x,
        s.subrange(p + x.len(), p + x.len() + y.len()) == y,
{
    assert(s.subrange(p, p + x.len()) =~= (x + y).subrange(0, x.len() as int));
    assert(s.subrange(p + x.len(), p + x.len() + y.len()) =~= (x + y).subrange(
        x.len() as int,
        x.len() + y.len() as int,
    ));
}

proof fn lemma_bytes2(n: int)
    requires
        0 <= n < 0x1_0000,
    ensures
        bytes2(n)[0] + 256 * bytes2(n)[1] == n,
{
    lemma_fundamental_div_mod(n, 256);
    lemma_small_mod((n / 256) as nat, 256);
}

proof fn lemma_bytes4(n: int)
    requires
        0 <= n < 0x1_0000_0000,
    ensures
        le_u32(bytes4(n), 0) == n,
{
    lemma_fundamental_div_mod(n, 256);
    lemma_fundamental_div_mod(n / 256, 256);
    lemma_fundamental_div_mod(n / 65536, 256);
    lemma_div_denominator(n, 256, 256);
    lemma_div_denominator(n, 65536, 256);
    lemma_small_mod((n / 16777216) as nat, 256);
}

proof fn lemma_bytes8(n: int)
    requires
        0 <= n < 0x1_0000_0000_0000_0000,
    ensures
        le_u64(bytes8(n), 0) == n,
{
    lemma_fundamental_div_mod(n, 0x1_0000_0000);
    lemma_bytes4(n % 0x1_0000_0000);
    lemma_bytes4(n / 0x1_0000_0000);
    let b = bytes8(n);
    let lo = bytes4(n % 0x1_0000_0000);
    let hi = bytes4(n / 0x1_0000_0000);
    assert(le_u32(b, 0) == le_u32(lo, 0));
    assert(le_u32(b, 4) == le_u32(hi, 0));
}

/// Four bytes of `n` at `p` read back as `n`.
proof fn lemma_u32_at(s: Seq<u8>, p: int, n: int)
    requires
        0 <= n < 0x1_0000_0000,
        fits(s, p, 4),
        s.subrange(p, p + 4) == bytes4(n),
    ensures
        le_u32(s, p) == n,
{
    lemma_bytes4(n);
    let b = bytes4(n);
    assert(s[p] == b[0] && s[p + 1] == b[1] && s[p + 2] == b[2] && s[p + 3] == b[3]) by {
        assert(s.subrange(p, p + 4)[0] == s[p]);
        assert(s.subrange(p, p + 4)[1] == s[p + 1]);
        assert(s.subrange(p, p + 4)[2] == s[p + 2]);
        assert(s.subrange(p, p + 4)[3] == s[p + 3]);
    }
}

/// Eight bytes of `n` at `p` read back as `n`.
proof fn lemma_u64_at(s: Seq<u8>, p: int, n: int)
    requires
        0 <= n < 0x1_0000_0000_0000_0000,
        fits(s, p, 8),
        s.subrange(p, p + 8) == bytes8(n),
    ensures
        le_u64(s, p) == n,
{
    lemma_bytes8(n);
    let b = bytes8(n);
    assert forall|i: int| 0 <= i < 8 implies s[p + i] == b[i] by {
        assert(s.subrange(p, p + 8)[i] == s[p + i]);
    }
    assert(le_u32(s, p) == le_u32(b, 0));
    assert(le_u32(s, p + 4) == le_u32(b, 4));
}

proof fn lemma_zero_from(s: Seq<u8>, q: int, k: Seq<u8>, i: int)
    requires
        0 <= q <= i <= q + k.len(),
        q + k.len() < s.len(),
        s.subrange(q, q + k.len() + 1) == k + seq![0u8],
        no_zero(k),
    ensures
        zero_from(s, i) == Some(q + k.len()),
    decreases q + k.len() - i,
{
    assert(s[i] == s.subrange(q, q + k.len() + 1)[i - q]);
    if i < q + k.len() {
        assert(s[i] == k[i - q]);
        lemma_zero_from(s, q, k, i + 1);
    }
}

/// A narrow string of non-zero bytes and its terminator at `q` decode as that
/// string, and decoding ends right after the terminator.
proof fn lemma_narrow_at(s: Seq<u8>, q: int, k: Seq<u8>)
    requires
        0 <= q,
        q + k.len() + 1 <= s.len(),
        s.subrange(q, q + k.len() + 1) == k + seq![0u8],
        no_zero(k),
    ensures
        narrow_string_at(s, q) == Ok::<(Seq<char>, int), VdfrError>((utf8_lossy(k), q + k.len() + 1)),
{
    lemma_zero_from(s, q, k, q);
    lemma_split(s, q, k, seq![0u8]);
}

/// A narrow string ends at its first zero byte, whatever bytes follow: the
/// text before it is what is decoded, and decoding resumes right after it.
pub proof fn lemma_narrow_stops_at_first_zero(text: Seq<u8>, rest: Seq<u8>)
    requires
        no_zero(text),
    ensures
        narrow_string_at(text + seq![0u8] + rest, 0) == Ok::<(Seq<char>, int), VdfrError>(
            (utf8_lossy(text), text.len() + 1 as int),
        ),
{
    let s = text + seq![0u8] + rest;
    assert(s.subrange(0, text.len() + 1 as int) =~= text + seq![0u8]);
    lemma_narrow_at(s, 0, text);
}

proof fn lemma_units_bytes(u: Seq<u16>)
    ensures
        units_bytes(u).len() == 2 * u.len(),
        forall|i: int|
            0 <= i < u.len() ==> units_bytes(u)[2 * i] == bytes2(#[trigger] u[i] as int)[0]
                && units_bytes(u)[2 * i + 1] == bytes2(u[i] as int)[1],
    decreases u.len(),
{
    if u.len() > 0 {
        lemma_units_bytes(u.drop_last());
        let init = u.drop_last();
        assert forall|i: int| 0 <= i < u.len() implies units_bytes(u)[2 * i] == bytes2(
            #[trigger] u[i] as int,
        )[0] && units_bytes(u)[2 * i + 1] == bytes2(u[i] as int)[1] by {
            if i < u.len() - 1 {
                assert(u[i] == init[i]);
            }
        }
    }
}

proof fn lemma_wide_len(s: Seq<u8>, q: int, u: Seq<u16>, n: int)
    requires
        0 <= q,
        0 <= n <= u.len(),
        q + 2 * u.len() + 2 <= s.len(),
        no_zero_unit(u),
        forall|i: int| 0 <= i < u.len() ==> le_u16(s, q + 2 * i) == #[trigger] u[i] as int,
        le_u16(s, q + 2 * u.len()) == 0,
    ensures
        wide_len_from(s, q, n) == Some(u.len() as int),
    decreases u.len() - n,
{
    if n < u.len() {
        assert(le_u16(s, q + 2 * n) == u[n] as int);
        lemma_wide_len(s, q, u, n + 1);
    }
}

/// A wide string of non-zero units and its terminator at `q` decode as that
/// string, and decoding ends right after the terminator.
proof fn lemma_wide_at(s: Seq<u8>, q: int, u: Seq<u16>)
    requires
        0 <= q,
        q + 2 * u.len() + 2 <= s.len(),
        s.subrange(q, q + 2 * u.len() + 2) == units_bytes(u) + seq![0u8, 0u8],
        no_zero_unit(u),
    ensures
        wide_string_at(s, q) == Ok::<(Seq<char>, int), VdfrError>(
            (utf16_lossy(u), q + 2 * u.len() + 2),
        ),
{
    lemma_units_bytes(u);
    let e = units_bytes(u) + seq![0u8, 0u8];
    assert forall|i: int| 0 <= i < u.len() implies le_u16(s, q + 2 * i) == #[trigger] u[i] as int by {
        assert(s[q + 2 * i] == s.subrange(q, q + 2 * u.len() + 2)[2 * i]);
        assert(s[q + 2 * i + 1] == s.subrange(q, q + 2 * u.len() + 2)[2 * i + 1]);
        assert(e[2 * i] == units_bytes(u)[2 * i]);
        assert(e[2 * i + 1] == units_bytes(u)[2 * i + 1]);
        lemma_bytes2(u[i] as int);
    }
    assert(s[q + 2 * u.len()] == e[2 * u.len() as int]);
    assert(s[q + 2 * u.len() + 1] == e[2 * u.len() as int + 1]);
    lemma_wide_len(s, q, u, 0);
    assert(wide_units(s, q, u.len() as int) =~= u);
}

/// A value as it is written: narrow strings as bytes, wide strings as code
/// units, trees as entries whose keys are bytes.
pub enum RawValue {
    Str(Seq<u8>),
    WideStr(Seq<u16>),
    Int32(i32),
    Pointer(i32),
    Color(i32),
    UInt64(u64),
    Int64(i64),
    Float32(u32),
    Tree(Seq<(Seq<u8>, RawValue)>),
}

impl RawValue {
    /// What decoding makes of the value: its strings decoded as text.
    pub open spec fn decoded(&self) -> ValueModel
        decreases self,
    {
        match self {
            RawValue::Str(b) => ValueModel::Str(utf8_lossy(*b)),
            RawValue::WideStr(u) => ValueModel::WideStr(utf16_lossy(*u)),
            RawValue::Int32(v) => ValueModel::Int32(*v),
            RawValue::Pointer(v) => ValueModel::Pointer(*v),
            RawValue::Color(v) => ValueModel::Color(*v),
            RawValue::UInt64(v) => ValueModel::UInt64(*v),
            RawValue::Int64(v) => ValueModel::Int64(*v),
            RawValue::Float32(v) => ValueModel::Float32(*v),
            RawValue::Tree(es) => ValueModel::Tree(decoded_entries(*es)),
        }
    }

    /// The bytes that follow the key: a nested tree's entries end with `end`.
    pub open spec fn payload(&self, end: u8) -> Seq<u8>
        decreases self,
    {
        match self {
            RawValue::Str(b) => *b + seq![0u8],
            RawValue::WideStr(u) => units_bytes(*u) + seq![0u8, 0u8],
            RawValue::Int32(x) => bytes4(unsigned32(*x as int)),
            RawValue::Pointer(x) => bytes4(unsigned32(*x as int)),
            RawValue::Color(x) => bytes4(unsigned32(*x as int)),
            RawValue::UInt64(x) => bytes8(*x as int),
            RawValue::Int64(x) => bytes8(unsigned64(*x as int)),
            RawValue::Float32(x) => bytes4(*x as int),
            RawValue::Tree(sub) => encode_entries(*sub, end) + seq![end],
        }
    }

    /// The tag byte that introduces the value.
    pub open spec fn tag(&self) -> u8 {
        match self {
            RawValue::Str(_) => BIN_STRING,
            RawValue::WideStr(_) => BIN_WIDESTRING,
            RawValue::Int32(_) => BIN_INT32,
            RawValue::Pointer(_) => BIN_POINTER,
            RawValue::Color(_) => BIN_COLOR,
            RawValue::UInt64(_) => BIN_UINT64,
            RawValue::Int64(_) => BIN_INT64,
            RawValue::Float32(_) => BIN_FLOAT32,
            RawValue::Tree(_) => BIN_NONE,
        }
    }
}

/// What decoding makes of written entries, in order.
pub open spec fn decoded_entries(es: Seq<(Seq<u8>, RawValue)>) -> TreeModel
    decreases es,
{
    if es.len() == 0 {
        Seq::empty()
    } else {
        decoded_entries(es.drop_last()).push((utf8_lossy(es.last().0), es.last().1.decoded()))
    }
}

/// The bytes of entries, each a tag, a key with its terminator and a
/// payload.
pub open spec fn encode_entries(es: Seq<(Seq<u8>, RawValue)>, end: u8) -> Seq<u8>
    decreases es,
{
    if es.len() == 0 {
        Seq::empty()
    } else {
        let (k, v) = es.last();
        encode_entries(es.drop_last(), end) + (seq![v.tag()] + k + seq![0u8]) + v.payload(end)
    }
}

/// The bytes of a tree: its entries and the end tag.
pub open spec fn encode_tree(es: Seq<(Seq<u8>, RawValue)>, end: u8) -> Seq<u8> {
    encode_entries(es, end) + seq![end]
}

/// Whether entries can be written and read back: no key or narrow string
/// holds a zero byte, no wide string a zero unit, no nested tree a key twice
/// once decoded, and at most `depth` trees nest inside them.
pub open spec fn entries_wf(es: Seq<(Seq<u8>, RawValue)>, depth: int) -> bool
    decreases es,
{
    if es.len() == 0 {
        true
    } else {
        &&& entries_wf(es.drop_last(), depth)
        &&& no_zero(es.last().0)
        &&& match es.last().1 {
            RawValue::Str(b) => no_zero(b),
            RawValue::WideStr(u) => no_zero_unit(u),
            RawValue::Tree(sub) => depth > 0 && entries_wf(sub, depth - 1) && keys_unique(
                decoded_entries(sub),
            ),
            _ => true,
        }
    }
}

/// `acc` with each entry of `t` inserted in turn.
pub open spec fn inserts_all(acc: TreeModel, t: TreeModel) -> TreeModel
    decreases t.len(),
{
    if t.len() == 0 {
        acc
    } else {
        tree_insert(inserts_all(acc, t.drop_last()), t.last().0, t.last().1)
    }
}

proof fn lemma_absent_key(t: TreeModel, k: Seq<char>, i: int)
    requires
        0 <= i,
        forall|j: int| 0 <= j < t.len() ==> t[j].0 != k,
    ensures
        key_index_from(t, k, i) == -1,
    decreases t.len() - i,
{
    if i < t.len() {
        lemma_absent_key(t, k, i + 1);
    }
}

/// Inserting entries with distinct keys, one by one, into an empty tree
/// gives those entries in order.
proof fn lemma_inserts_unique(t: TreeModel)
    requires
        keys_unique(t),
    ensures
        inserts_all(Seq::empty(), t) == t,
    decreases t.len(),
{
    if t.len() > 0 {
        let init = t.drop_last();
        assert(keys_unique(init));
        lemma_inserts_unique(init);
        lemma_absent_key(init, t.last().0, 0);
        assert(key_index(init, t.last().0) == -1);
        assert(init.push(t.last()) =~= t);
    }
}

/// A scalar's payload at `q` decodes as that scalar.
proof fn lemma_scalar_payload(s: Seq<u8>, q: int, v: RawValue, end: u8)
    requires
        v !is Tree,
        0 <= q,
        q + v.payload(end).len() <= s.len(),
        s.subrange(q, q + v.payload(end).len()) == v.payload(end),
        v matches RawValue::Str(b) ==> no_zero(b),
        v matches RawValue::WideStr(u) ==> no_zero_unit(u),
    ensures
        scalar_at(s, q, v.tag()) == Ok::<(ValueModel, int), VdfrError>(
            (v.decoded(), q + v.payload(end).len()),
        ),
{
    match v {
        RawValue::Str(b) => {
            lemma_narrow_at(s, q, b);
        },
        RawValue::WideStr(u) => {
            lemma_units_bytes(u);
            lemma_wide_at(s, q, u);
        },
        RawValue::Int32(x) => {
            lemma_u32_at(s, q, unsigned32(x as int));
        },
        RawValue::Pointer(x) => {
            lemma_u32_at(s, q, unsigned32(x as int));
        },
        RawValue::Color(x) => {
            lemma_u32_at(s, q, unsigned32(x as int));
        },
        RawValue::UInt64(x) => {
            lemma_u64_at(s, q, x as int);
        },
        RawValue::Int64(x) => {
            lemma_u64_at(s, q, unsigned64(x as int));
        },
        RawValue::Float32(x) => {
            lemma_u32_at(s, q, x as int);
        },
        RawValue::Tree(_) => {},
    }
}

/// Decoding from the start of written entries reads them all, inserting each
/// into the tree built so far, and goes on right after them.
#[verifier::spinoff_prover]
#[verifier::rlimit(30)]
proof fn lemma_entries(
    s: Seq<u8>,
    p: int,
    es: Seq<(Seq<u8>, RawValue)>,
    end: u8,
    depth: int,
    acc: TreeModel,
)
    requires
        end == BIN_END || end == BIN_END_ALT,
        entries_wf(es, depth),
        0 <= p,
        p + encode_entries(es, end).len() <= s.len(),
        s.subrange(p, p + encode_entries(es, end).len()) == encode_entries(es, end),
    ensures
        tree_from(s, p, end, None, depth, acc) == tree_from(
            s,
            p + encode_entries(es, end).len(),
            end,
            None,
            depth,
            inserts_all(acc, decoded_entries(es)),
        ),
    decreases es,
{
    if es.len() == 0 {
        assert(decoded_entries(es) =~= Seq::<(Seq<char>, ValueModel)>::empty());
    } else {
        let init = es.drop_last();
        let (k, v) = es.last();
        let ei = encode_entries(init, end);
        let head = seq![v.tag()] + k + seq![0u8];
        let payload = v.payload(end);
        assert(encode_entries(es, end) == ei + head + payload);
        assert(ei + head + payload =~= ei + (head + payload));
        lemma_split(s, p, ei, head + payload);
        lemma_entries(s, p, init, end, depth, acc);
        let at = p + ei.len();
        let acc1 = inserts_all(acc, decoded_entries(init));
        lemma_split(s, at, head, payload);
        assert(head =~= seq![v.tag()] + (k + seq![0u8]));
        lemma_split(s, at, seq![v.tag()], k + seq![0u8]);
        assert(s[at] == v.tag()) by {
            assert(s.subrange(at, at + 1)[0] == s[at]);
        }
        lemma_narrow_at(s, at + 1, k);
        let q = at + head.len();
        assert(key_at(s, at + 1, None) == Ok::<(Seq<char>, int), VdfrError>((utf8_lossy(k), q)));
        let de = decoded_entries(es);
        assert(de.drop_last() =~= decoded_entries(init));
        assert(inserts_all(acc, de) == tree_insert(acc1, utf8_lossy(k), v.decoded()));
        match v {
            RawValue::Tree(sub) => {
                let es2 = encode_entries(sub, end);
                lemma_split(s, q, es2, seq![end]);
                assert(decreases_to!(es => sub)) by {
                    assert(decreases_to!(es => es[es.len() - 1]));
                    assert(decreases_to!(es[es.len() - 1] => es[es.len() - 1].1));
                }
                lemma_entries(s, q, sub, end, depth - 1, Seq::empty());
                assert(s[q + es2.len()] == end) by {
                    assert(s.subrange(q + es2.len(), q + es2.len() + 1)[0] == s[q + es2.len()]);
                }
                lemma_inserts_unique(decoded_entries(sub));
            },
            _ => {
                lemma_scalar_payload(s, q, v, end);
            },
        }
    }
}

/// Round trip: decoding the bytes of a well-formed tree with distinct keys,
/// nested no deeper than the decoder allows, whatever follows them, gives
/// back exactly its entries (same keys, same variants, same values, decoded
/// as text) and ends right after its end tag.
pub proof fn lemma_round_trip(es: Seq<(Seq<u8>, RawValue)>, alt_format: bool, rest: Seq<u8>)
    requires
        entries_wf(es, MAX_DEPTH as int),
        keys_unique(decoded_entries(es)),
    ensures
        tree_at(encode_tree(es, end_tag(alt_format)) + rest, 0, end_tag(alt_format), None) == Ok::<
            (TreeModel, int),
            VdfrError,
        >((decoded_entries(es), encode_tree(es, end_tag(alt_format)).len() as int)),
{
    let end = end_tag(alt_format);
    let e = encode_entries(es, end);
    let s = encode_tree(es, end) + rest;
    assert(s.subrange(0, e.len() as int) =~= e);
    lemma_entries(s, 0, es, end, MAX_DEPTH as int, Seq::empty());
    assert(s[e.len() as int] == end);
    lemma_inserts_unique(decoded_entries(es));
}

} // verus!
