//! The tree decoder: tag bytes, keys and typed payloads, assembled into
//! nested key-value trees.

use vstd::prelude::*;

use crate::bytes::{as_signed32, as_signed64, fits, le_u32, le_u64, take_i32, take_i64, take_u32, take_u64, take_u8};
use crate::error::VdfrError;
use crate::text::{narrow_string_at, read_string, string_result, table_model, wide_string_at};
use crate::value::{keys_unique, tree_insert, KeyValues, TreeModel, Value, ValueModel};

verus! {

/// Tag of a nested tree.
pub const BIN_NONE: u8 = 0x00;
/// Tag of a narrow string.
pub const BIN_STRING: u8 = 0x01;
/// Tag of a 32-bit signed integer.
pub const BIN_INT32: u8 = 0x02;
/// Tag of a 32-bit float.
pub const BIN_FLOAT32: u8 = 0x03;
/// Tag of a 32-bit "pointer".
pub const BIN_POINTER: u8 = 0x04;
/// Tag of a wide string.
pub const BIN_WIDESTRING: u8 = 0x05;
/// Tag of a 32-bit packed color.
pub const BIN_COLOR: u8 = 0x06;
/// Tag of a 64-bit unsigned integer.
pub const BIN_UINT64: u8 = 0x07;
/// End of a tree in the usual encoding.
pub const BIN_END: u8 = 0x08;
/// Tag of a 64-bit signed integer.
pub const BIN_INT64: u8 = 0x0A;
/// End of a tree in the alternate encoding.
pub const BIN_END_ALT: u8 = 0x0B;

/// How many trees may nest inside the outermost one. Each level of nesting
/// costs a frame of the decoder's stack, so adversarial input is cut off here.
pub const MAX_DEPTH: usize = 512;

/// The tag that ends a tree in the chosen encoding.
pub open spec fn end_tag(alt_format: bool) -> u8 {
    if alt_format {
        BIN_END_ALT
    } else {
        BIN_END
    }
}

/// The strings of an optional table.
pub open spec fn opt_table_model(t: Option<Vec<String>>) -> Option<Seq<Seq<char>>> {
    match t {
        Some(v) => Some(table_model(v@)),
        None => None,
    }
}

/// The key at `p`: an index into the string table when there is one,
/// otherwise an inline narrow string.
pub open spec fn key_at(s: Seq<u8>, p: int, table: Option<Seq<Seq<char>>>) -> Result<
    (Seq<char>, int),
    VdfrError,
> {
    match table {
        Some(t) => if !fits(s, p, 4) {
            Err(VdfrError::ReadError)
        } else if le_u32(s, p) < t.len() {
            Ok((t[le_u32(s, p)], p + 4))
        } else {
            Err(VdfrError::StringIndexOutOfRange(le_u32(s, p) as u32))
        },
        None => narrow_string_at(s, p),
    }
}

/// The scalar of tag `t` at `p`, and the position after it. A tag that names
/// no scalar is `InvalidType`.
pub open spec fn scalar_at(s: Seq<u8>, p: int, t: u8) -> Result<(ValueModel, int), VdfrError> {
    if t == BIN_STRING {
        match narrow_string_at(s, p) {
            Ok((c, q)) => Ok((ValueModel::Str(c), q)),
            Err(e) => Err(e),
        }
    } else if t == BIN_WIDESTRING {
        match wide_string_at(s, p) {
            Ok((c, q)) => Ok((ValueModel::WideStr(c), q)),
            Err(e) => Err(e),
        }
    } else if t == BIN_INT32 || t == BIN_POINTER || t == BIN_COLOR {
        if !fits(s, p, 4) {
            Err(VdfrError::ReadError)
        } else {
            let v = as_signed32(le_u32(s, p)) as i32;
            Ok(
                (
                    if t == BIN_INT32 {
                        ValueModel::Int32(v)
                    } else if t == BIN_POINTER {
                        ValueModel::Pointer(v)
                    } else {
                        ValueModel::Color(v)
                    },
                    p + 4,
                ),
            )
        }
    } else if t == BIN_UINT64 {
        if !fits(s, p, 8) {
            Err(VdfrError::ReadError)
        } else {
            Ok((ValueModel::UInt64(le_u64(s, p) as u64), p + 8))
        }
    } else if t == BIN_INT64 {
        if !fits(s, p, 8) {
            Err(VdfrError::ReadError)
        } else {
            Ok((ValueModel::Int64(as_signed64(le_u64(s, p)) as i64), p + 8))
        }
    } else if t == BIN_FLOAT32 {
        if !fits(s, p, 4) {
            Err(VdfrError::ReadError)
        } else {
            Ok((ValueModel::Float32(le_u32(s, p) as u32), p + 4))
        }
    } else {
        Err(VdfrError::InvalidType(t))
    }
}

/// The entries from `p` up to and including the end tag, added to `acc`, and
/// the position after the end tag. Each entry is a tag byte, a key, and a
/// payload: a nested tree for `BIN_NONE`, a scalar otherwise. A later entry
/// with a key already present replaces the earlier value. At most `depth`
/// more trees may nest inside this one.
pub open spec fn tree_from(
    s: Seq<u8>,
    p: int,
    end: u8,
    table: Option<Seq<Seq<char>>>,
    depth: int,
    acc: TreeModel,
) -> Result<(TreeModel, int), VdfrError>
    decreases s.len() - p,
{
    if !fits(s, p, 1) {
        Err(VdfrError::ReadError)
    } else if s[p] == end {
        Ok((acc, p + 1))
    } else {
        let t = s[p];
        match key_at(s, p + 1, table) {
            Err(e) => Err(e),
            Ok((k, q)) => if !(p < q <= s.len()) {
                Err(VdfrError::ReadError)
            } else if t == BIN_NONE {
                if depth <= 0 {
                    Err(VdfrError::TooDeep)
                } else {
                    match tree_from(s, q, end, table, depth - 1, Seq::empty()) {
                        Err(e) => Err(e),
                        Ok((sub, r)) => if p < r <= s.len() {
                            tree_from(
                                s,
                                r,
                                end,
                                table,
                                depth,
                                tree_insert(acc, k, ValueModel::Tree(sub)),
                            )
                        } else {
                            Err(VdfrError::ReadError)
                        },
                    }
                }
            } else {
                match scalar_at(s, q, t) {
                    Err(e) => Err(e),
                    Ok((v, r)) => if p < r <= s.len() {
                        tree_from(s, r, end, table, depth, tree_insert(acc, k, v))
                    } else {
                        Err(VdfrError::ReadError)
                    },
                }
            },
        }
    }
}

/// The tree at `p` and the position after its end tag, with at most
/// `MAX_DEPTH` trees nested inside it.
pub open spec fn tree_at(s: Seq<u8>, p: int, end: u8, table: Option<Seq<Seq<char>>>) -> Result<
    (TreeModel, int),
    VdfrError,
> {
    tree_from(s, p, end, table, MAX_DEPTH as int, Seq::empty())
}

/// The model of a decoded value and the position after it.
pub open spec fn value_result(r: Result<(Value, usize), VdfrError>) -> Result<
    (ValueModel, int),
    VdfrError,
> {
    match r {
        Ok((v, q)) => Ok((v.model(), q as int)),
        Err(e) => Err(e),
    }
}

/// The model of a decoded tree and the position after it.
pub open spec fn tree_result(r: Result<(KeyValues, usize), VdfrError>) -> Result<
    (TreeModel, int),
    VdfrError,
> {
    match r {
        Ok((kv, q)) => Ok((kv.model(), q as int)),
        Err(e) => Err(e),
    }
}

/// Read the key at `pos`.
fn read_key(data: &[u8], pos: usize, table: &Option<Vec<String>>) -> (r: Result<
    (String, usize),
    VdfrError,
>)
    requires
        pos <= data@.len(),
    ensures
        string_result(r) == key_at(data@, pos as int, opt_table_model(*table)),
        r matches Ok((_, q)) ==> pos < q <= data@.len(),
{
    match table {
        Some(t) => {
            let index = match take_u32(data, pos) {
                Ok(v) => v,
                Err(e) => return Err(e),
            };
            if (index as u64) < (t.len() as u64) {
                let key = t[index as usize].clone();
                Ok((key, pos + 4))
            } else {
                Err(VdfrError::StringIndexOutOfRange(index))
            }
        },
        None => read_string(data, pos, false),
    }
}

/// Read the scalar payload of tag `t` at `pos`.
fn read_scalar(data: &[u8], pos: usize, t: u8) -> (r: Result<(Value, usize), VdfrError>)
    requires
        pos <= data@.len(),
    ensures
        value_result(r) == scalar_at(data@, pos as int, t),
        r matches Ok((_, q)) ==> pos < q <= data@.len(),
{
    if t == BIN_STRING {
        match read_string(data, pos, false) {
            Ok((s, q)) => Ok((Value::StringType(s), q)),
            Err(e) => Err(e),
        }
    } else if t == BIN_WIDESTRING {
        match read_string(data, pos, true) {
            Ok((s, q)) => Ok((Value::WideStringType(s), q)),
            Err(e) => Err(e),
        }
    } else if t == BIN_INT32 || t == BIN_POINTER || t == BIN_COLOR {
        let v = match take_i32(data, pos) {
            Ok(v) => v,
            Err(e) => return Err(e),
        };
        if t == BIN_INT32 {
            Ok((Value::Int32Type(v), pos + 4))
        } else if t == BIN_POINTER {
            Ok((Value::PointerType(v), pos + 4))
        } else {
            Ok((Value::ColorType(v), pos + 4))
        }
    } else if t == BIN_UINT64 {
        match take_u64(data, pos) {
            Ok(v) => Ok((Value::UInt64Type(v), pos + 8)),
            Err(e) => Err(e),
        }
    } else if t == BIN_INT64 {
        match take_i64(data, pos) {
            Ok(v) => Ok((Value::Int64Type(v), pos + 8)),
            Err(e) => Err(e),
        }
    } else if t == BIN_FLOAT32 {
        match take_u32(data, pos) {
            Ok(v) => Ok((Value::Float32Type(v), pos + 4)),
            Err(e) => Err(e),
        }
    } else {
        Err(VdfrError::InvalidType(t))
    }
}

/// Decode the tree at `pos` with at most `depth` trees nested inside it.
fn read_tree(
    data: &[u8],
    pos: usize,
    alt_format: bool,
    string_table: &Option<Vec<String>>,
    depth: usize,
) -> (r: Result<(KeyValues, usize), VdfrError>)
    requires
        pos <= data@.len(),
    ensures
        tree_result(r) == tree_from(
            data@,
            pos as int,
            end_tag(alt_format),
            opt_table_model(*string_table),
            depth as int,
            Seq::empty(),
        ),
        r matches Ok((_, q)) ==> pos < q <= data@.len(),
        r matches Ok((kv, _)) ==> keys_unique(kv.model()),
    decreases data@.len() - pos,
{
    let ghost s = data@;
    let ghost tm = opt_table_model(*string_table);
    let end = if alt_format {
        BIN_END_ALT
    } else {
        BIN_END
    };
    let len: usize = data.len();
    let mut node = KeyValues::new();
    let mut cur: usize = pos;
    loop
        invariant
            len == data@.len(),
            s == data@,
            tm == opt_table_model(*string_table),
            end == end_tag(alt_format),
            pos <= cur <= len,
            keys_unique(node.model()),
            tree_from(s, pos as int, end, tm, depth as int, Seq::empty()) == tree_from(
                s,
                cur as int,
                end,
                tm,
                depth as int,
                node.model(),
            ),
        decreases len - cur,
    {
        let t = match take_u8(data, cur) {
            Ok(t) => t,
            Err(e) => return Err(e),
        };
        if t == end {
            return Ok((node, cur + 1));
        }
        let (key, q) = match read_key(data, cur + 1, string_table) {
            Ok(kq) => kq,
            Err(e) => return Err(e),
        };
        if t == BIN_NONE {
            if depth == 0 {
                return Err(VdfrError::TooDeep);
            }
            let (sub, r) = match read_tree(data, q, alt_format, string_table, depth - 1) {
                Ok(sr) => sr,
                Err(e) => return Err(e),
            };
            node.insert(key, Value::KeyValueType(sub));
            cur = r;
        } else {
            let (v, r) = match read_scalar(data, q, t) {
                Ok(vr) => vr,
                Err(e) => return Err(e),
            };
            node.insert(key, v);
            cur = r;
        }
    }
}

/// Decode the tree at `pos`: entries until the end tag of the chosen
/// encoding (`BIN_END_ALT` when `alt_format`, else `BIN_END`), keys taken
/// from `string_table` when there is one. Returns the tree and the position
/// after its end tag. Trees nested more than `MAX_DEPTH` deep are `TooDeep`.
/// The record readers always use the usual encoding; no file is known to use
/// the alternate one, which only a direct call here selects.
pub fn read_kv(data: &[u8], pos: usize, alt_format: bool, string_table: &Option<Vec<String>>) -> (r:
    Result<(KeyValues, usize), VdfrError>)
    requires
        pos <= data@.len(),
    ensures
        tree_result(r) == tree_at(
            data@,
            pos as int,
            end_tag(alt_format),
            opt_table_model(*string_table),
        ),
        r matches Ok((_, q)) ==> pos < q <= data@.len(),
        r matches Ok((kv, _)) ==> keys_unique(kv.model()),
{
    read_tree(data, pos, alt_format, string_table, MAX_DEPTH)
}

} // verus!
