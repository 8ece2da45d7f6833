//! Tensors in the safetensors format: the bytes of a file from named `f32` tensors, and the
//! tensors of a file, checked to be `f32` tensors whose data matches their shape.

use vstd::prelude::*;
use crate::error::EngineError;
use crate::shape::{numel_spec, shape_fits};

verus! {

/// Error of the safetensors crate.
#[verifier::external_type_specification]
#[verifier::external_body]
pub struct ExSafeTensorError(safetensors::SafeTensorError);

/// Element type of a stored tensor, as far as this library tells them apart.
#[derive(Clone, Copy, PartialEq, Eq, Structural)]
pub enum TensorDtype {
    /// 32-bit floating point.
    F32,
    /// Any other element type.
    Other,
}

/// A stored tensor: its name, element type, shape and raw little-endian bytes.
pub struct StoredTensor {
    pub name: String,
    pub dtype: TensorDtype,
    pub shape: Vec<usize>,
    pub data: Vec<u8>,
}

/// The tensor is an `f32` tensor whose bytes hold exactly its elements.
pub open spec fn valid_f32(t: StoredTensor) -> bool {
    &&& t.dtype == TensorDtype::F32
    &&& shape_fits(t.shape@)
    &&& numel_spec(t.shape@) * 4 == t.data@.len()
}

/// The bytes of a safetensors file holding, for each `(name, shape, data)`, an `f32` tensor.
pub uninterp spec fn safetensors_bytes(entries: Seq<(Seq<char>, Seq<usize>, Seq<u8>)>) -> Seq<u8>;

/// Each entry as plain values.
pub open spec fn entries_view(entries: Seq<StoredTensor>) -> Seq<(Seq<char>, Seq<usize>, Seq<u8>)> {
    Seq::new(entries.len(), |k: int| (entries[k].name@, entries[k].shape@, entries[k].data@))
}

/// Serializes `f32` tensors with `safetensors::serialize` after wrapping each in a
/// `safetensors::tensor::TensorView::new(safetensors::Dtype::F32, ..)`. The view is refused exactly when
/// the byte count differs from four bytes per element; serialization of valid views cannot
/// fail, and its bytes are a function of the entries (sorted by type, then name).
#[verifier::external_body]
fn serialize_f32_entries(entries: &Vec<StoredTensor>) -> (r: Result<Vec<u8>, safetensors::SafeTensorError>)
    requires
        forall|k: int| 0 <= k < entries@.len() ==> shape_fits((#[trigger] entries@[k]).shape@)
            && numel_spec(entries@[k].shape@) * 4 <= usize::MAX,
    ensures
        r is Ok <==> forall|k: int| 0 <= k < entries@.len() ==> numel_spec((#[trigger] entries@[k]).shape@) * 4 == entries@[k].data@.len(),
        r matches Ok(b) ==> b@ == safetensors_bytes(entries_view(entries@)),
{
    let mut views = std::collections::HashMap::new();
    for e in entries.iter() {
        let v = safetensors::tensor::TensorView::new(safetensors::Dtype::F32, e.shape.clone(), &e.data)?;
        views.insert(e.name.clone(), v);
    }
    safetensors::serialize(&views, &None)
}

/// The header length that a safetensors buffer announces in its first eight bytes, read as a
/// little-endian `u64`.
pub open spec fn announced_header_len(b: Seq<u8>) -> int {
    b[0] as int + 0x100 * (b[1] as int + 0x100 * (b[2] as int + 0x100 * (b[3] as int
        + 0x100 * (b[4] as int + 0x100 * (b[5] as int + 0x100 * (b[6] as int + 0x100 * (b[7] as int)))))))
}

/// The buffer is too short to hold the eight length bytes, or announces a header longer than
/// 100 000 000 bytes or longer than what follows the length bytes.
pub open spec fn header_refused(b: Seq<u8>) -> bool {
    b.len() < 8 || announced_header_len(b) > 100_000_000 || 8 + announced_header_len(b) > b.len()
}

/// `d` is a run of consecutive bytes of `b` that lies after the length bytes and the header.
pub open spec fn within_data(b: Seq<u8>, d: Seq<u8>) -> bool {
    exists|lo: int, hi: int| 8 + announced_header_len(b) <= lo <= hi <= b.len() && d == b.subrange(lo, hi)
}

/// The header bytes that a buffer announces: those after the eight length bytes.
pub open spec fn header_bytes(b: Seq<u8>) -> Seq<u8> {
    b.subrange(8, 8 + announced_header_len(b))
}

/// The end offsets of the tensors' data that a safetensors header lists, or `None` where the
/// header is not UTF-8 or not a header that the crate's JSON parse accepts.
pub uninterp spec fn safetensors_header_ends(h: Seq<u8>) -> Option<Set<usize>>;

/// The buffer passes the length checks but its header lists a data end so large that the end
/// plus the header and its length bytes is past `usize::MAX`.
pub open spec fn data_end_overflows(b: Seq<u8>) -> bool {
    &&& !header_refused(b)
    &&& safetensors_header_ends(header_bytes(b)) matches Some(ends)
    &&& exists|e: usize| #[trigger] ends.contains(e) && e + 8 + announced_header_len(b) > usize::MAX
}

/// What the safetensors crate reads from a buffer: each tensor's name mapped to whether its
/// element type is `F32`, its shape and its bytes; `None` where it refuses the buffer.
pub uninterp spec fn safetensors_parsed(b: Seq<u8>) -> Option<Map<Seq<char>, (bool, Seq<usize>, Seq<u8>)>>;

/// No two entries share a name.
pub open spec fn distinct_names(v: Seq<StoredTensor>) -> bool {
    forall|i: int, j: int| 0 <= i < v.len() && 0 <= j < v.len() && i != j ==> (#[trigger] v[i]).name@ != (#[trigger] v[j]).name@
}

/// The entries are, one for one, the tensors of `m`.
pub open spec fn lists_exactly(v: Seq<StoredTensor>, m: Map<Seq<char>, (bool, Seq<usize>, Seq<u8>)>) -> bool {
    &&& distinct_names(v)
    &&& forall|k: int| 0 <= k < v.len() ==> m.contains_key((#[trigger] v[k]).name@)
        && m[v[k].name@] == (v[k].dtype == TensorDtype::F32, v[k].shape@, v[k].data@)
    &&& forall|n: Seq<char>| #[trigger] m.contains_key(n) ==> exists|k: int| 0 <= k < v.len() && (#[trigger] v[k]).name@ == n
}

/// An entry of a parsed file is an `f32` tensor whose bytes hold exactly its elements, with a
/// byte count that fits in `usize`.
pub open spec fn valid_parsed_entry(e: (bool, Seq<usize>, Seq<u8>)) -> bool {
    &&& e.0
    &&& shape_fits(e.1)
    &&& numel_spec(e.1) * 4 == e.2.len()
    &&& numel_spec(e.1) * 4 <= usize::MAX
}

/// Reads the data end offsets that a safetensors header lists: the header is read as UTF-8 with
/// `std::str::from_utf8` and parsed with `serde_json::from_str` into a
/// `safetensors::tensor::Metadata`, the parse that `SafeTensors::deserialize` makes; the list
/// holds `data_offsets.1` of each tensor of `Metadata::tensors`, in the order of that hash map.
/// The set of ends is a function of the header bytes; the order is not stated.
#[verifier::external_body]
fn header_data_ends(header: &[u8]) -> (r: Option<Vec<usize>>)
    ensures
        r is Some <==> safetensors_header_ends(header@) is Some,
        r matches Some(v) ==> v@.to_set() == safetensors_header_ends(header@)->Some_0,
{
    let text = std::str::from_utf8(header).ok()?;
    let m: safetensors::tensor::Metadata = serde_json::from_str(text).ok()?;
    Some(m.tensors().values().map(|info| info.data_offsets.1).collect())
}

/// Parses a buffer with `safetensors::SafeTensors::deserialize` and lists its tensors with
/// `SafeTensors::tensors`, each as its name, whether its element type is `F32`, its shape
/// and its bytes. The crate adds the data end, the header length and 8 unchecked, so a buffer
/// whose header lists a data end that overflows that sum is left out. The parse succeeds
/// exactly when `safetensors_parsed` is `Some`, and the list then holds its tensors one for one
/// under distinct names (the names key a hash map of the header), in an order that is not
/// stated. A buffer too short for the length bytes, or announcing a header over the crate's
/// limit or past the buffer's end, is refused; each tensor's bytes are a slice of the data
/// that follows the header.
#[verifier::external_body]
fn deserialize_tensors(buffer: &[u8]) -> (r: Result<Vec<StoredTensor>, safetensors::SafeTensorError>)
    requires
        !data_end_overflows(buffer@),
    ensures
        r is Ok <==> safetensors_parsed(buffer@) is Some,
        header_refused(buffer@) ==> r is Err,
        r matches Ok(v) ==> lists_exactly(v@, safetensors_parsed(buffer@)->Some_0),
        r matches Ok(v) ==> forall|k: int| 0 <= k < v@.len() ==> within_data(buffer@, (#[trigger] v@[k]).data@),
{
    let st = safetensors::SafeTensors::deserialize(buffer)?;
    Ok(st.tensors().into_iter().map(|(name, v)| StoredTensor {
        name,
        dtype: match v.dtype() {
            safetensors::Dtype::F32 => TensorDtype::F32,
            _ => TensorDtype::Other,
        },
        shape: v.shape().to_vec(),
        data: v.data().to_vec(),
    }).collect())
}

/// Accepts the tensors only if every one is an `f32` tensor whose bytes hold exactly its
/// elements; a tensor whose element or byte count overflows is refused too.
pub fn check_stored_tensors(entries: Vec<StoredTensor>) -> (r: Result<Vec<StoredTensor>, EngineError>)
    ensures
        r is Ok <==> forall|k: int| 0 <= k < entries@.len() ==> valid_f32(#[trigger] entries@[k])
            && numel_spec(entries@[k].shape@) * 4 <= usize::MAX,
        r matches Ok(v) ==> v@ == entries@,
        r matches Err(e) ==> e is SerializationError,
{
    let mut k: usize = 0;
    while k < entries.len()
        invariant
            k <= entries@.len(),
            forall|j: int| 0 <= j < k ==> valid_f32(#[trigger] entries@[j]) && numel_spec(entries@[j].shape@) * 4 <= usize::MAX,
        decreases entries.len() - k,
    {
        let e = &entries[k];
        if e.dtype != TensorDtype::F32 {
            return Err(EngineError::SerializationError("Unsupported SafeTensors dtype; only F32 is supported".to_string()));
        }
        let bytes = match crate::shape::checked_numel(e.shape.as_slice()) {
            Some(n) => n.checked_mul(4),
            None => None,
        };
        match bytes {
            Some(b) => {
                if b != e.data.len() {
                    return Err(EngineError::SerializationError("Byte length mismatch for a SafeTensors tensor".to_string()));
                }
            },
            None => {
                return Err(EngineError::SerializationError("Element count of a SafeTensors tensor overflows".to_string()));
            },
        }
        k = k + 1;
    }
    Ok(entries)
}

/// The announced header length splits into its low four bytes and its high four bytes.
proof fn lemma_announced_split(b: Seq<u8>)
    requires
        b.len() >= 8,
    ensures
        announced_header_len(b) == (b[0] as int + 0x100 * (b[1] as int + 0x100 * (b[2] as int + 0x100 * (b[3] as int))))
            + 0x1_0000_0000 * (b[4] as int + 0x100 * (b[5] as int + 0x100 * (b[6] as int + 0x100 * (b[7] as int)))),
        0 <= b[0] as int + 0x100 * (b[1] as int + 0x100 * (b[2] as int + 0x100 * (b[3] as int))) < 0x1_0000_0000,
{
    let (b0, b1, b2, b3) = (b[0] as int, b[1] as int, b[2] as int, b[3] as int);
    let (b4, b5, b6, b7) = (b[4] as int, b[5] as int, b[6] as int, b[7] as int);
    let a = announced_header_len(b);
    assert(a == (b0 + 0x100 * (b1 + 0x100 * (b2 + 0x100 * b3)))
        + 0x1_0000_0000 * (b4 + 0x100 * (b5 + 0x100 * (b6 + 0x100 * b7)))) by (nonlinear_arith)
        requires
            a == b0 + 0x100 * (b1 + 0x100 * (b2 + 0x100 * (b3 + 0x100 * (b4 + 0x100 * (b5 + 0x100 * (b6 + 0x100 * b7)))))),
    ;
    assert(0 <= b0 + 0x100 * (b1 + 0x100 * (b2 + 0x100 * b3)) < 0x1_0000_0000) by (nonlinear_arith)
        requires
            0 <= b0 < 0x100, 0 <= b1 < 0x100, 0 <= b2 < 0x100, 0 <= b3 < 0x100;
}

/// The header length that the buffer announces, where it passes the length checks.
fn checked_header_len(buffer: &[u8]) -> (r: Option<usize>)
    ensures
        r is Some <==> !header_refused(buffer@),
        r matches Some(n) ==> n == announced_header_len(buffer@),
{
    if buffer.len() < 8 {
        return None;
    }
    proof {
        lemma_announced_split(buffer@);
    }
    if buffer[4] != 0 || buffer[5] != 0 || buffer[6] != 0 || buffer[7] != 0 {
        let ghost (b4, b5, b6, b7) = (buffer@[4] as int, buffer@[5] as int, buffer@[6] as int, buffer@[7] as int);
        assert(b4 + 0x100 * (b5 + 0x100 * (b6 + 0x100 * b7)) >= 1) by (nonlinear_arith)
            requires
                b4 >= 0, b5 >= 0, b6 >= 0, b7 >= 0, b4 != 0 || b5 != 0 || b6 != 0 || b7 != 0;
        return None;
    }
    let low: u64 = buffer[0] as u64 + 0x100 * (buffer[1] as u64 + 0x100 * (buffer[2] as u64 + 0x100 * buffer[3] as u64));
    if low > 100_000_000 {
        return None;
    }
    let n = low as usize;
    if n > buffer.len() - 8 {
        return None;
    }
    Some(n)
}

/// Whether the buffer passes the length checks and its header lists a data end that overflows
/// the sum the safetensors crate forms with it.
fn data_end_overflow(buffer: &[u8]) -> (r: bool)
    ensures
        r == data_end_overflows(buffer@),
{
    let n = match checked_header_len(buffer) {
        Some(n) => n,
        None => {
            return false;
        },
    };
    let blen = buffer.len();
    let mut header: Vec<u8> = Vec::new();
    let mut i: usize = 0;
    while i < n
        invariant
            blen == buffer@.len(),
            n == announced_header_len(buffer@),
            8 + n <= buffer@.len(),
            i <= n,
            header@ == buffer@.subrange(8, 8 + i),
        decreases n - i,
    {
        header.push(buffer[8 + i]);
        i = i + 1;
        assert(header@ =~= buffer@.subrange(8, 8 + i));
    }
    assert(header@ == header_bytes(buffer@));
    let ends = match header_data_ends(header.as_slice()) {
        Some(v) => v,
        None => {
            return false;
        },
    };
    assert(safetensors_header_ends(header_bytes(buffer@)) == Some(ends@.to_set()));
    let limit = usize::MAX - 8 - n;
    let mut k: usize = 0;
    while k < ends.len()
        invariant
            k <= ends@.len(),
            limit == usize::MAX - 8 - n,
            n == announced_header_len(buffer@),
            !header_refused(buffer@),
            safetensors_header_ends(header_bytes(buffer@)) == Some(ends@.to_set()),
            forall|j: int| 0 <= j < k ==> ends@[j] <= limit,
        decreases ends.len() - k,
    {
        if ends[k] > limit {
            proof {
                let e = ends@[k as int];
                assert(ends@.to_set().contains(e));
                assert(safetensors_header_ends(header_bytes(buffer@)) == Some(ends@.to_set()));
                assert(e + 8 + announced_header_len(buffer@) > usize::MAX);
                let ends_set = safetensors_header_ends(header_bytes(buffer@))->Some_0;
                assert(ends_set.contains(e) && e + 8 + announced_header_len(buffer@) > usize::MAX);
                assert(data_end_overflows(buffer@));
            }
            return true;
        }
        k = k + 1;
    }
    proof {
        assert forall|e: usize| #[trigger] ends@.to_set().contains(e) implies e + 8 + n <= usize::MAX by {
            let j = choose|j: int| 0 <= j < ends@.len() && ends@[j] == e;
        }
    }
    false
}

/// The tensors of a safetensors buffer, each checked to be an `f32` tensor whose bytes hold
/// exactly its elements. A buffer that the safetensors crate refuses is refused, and so is one
/// whose header lists a data end past what `usize` can count.
pub fn load_safetensors_bytes(buffer: &[u8]) -> (r: Result<Vec<StoredTensor>, EngineError>)
    ensures
        r is Ok <==> !data_end_overflows(buffer@) && (safetensors_parsed(buffer@) matches Some(m)
            && forall|n: Seq<char>| #[trigger] m.contains_key(n) ==> valid_parsed_entry(m[n])),
        header_refused(buffer@) ==> r is Err,
        r matches Ok(v) ==> lists_exactly(v@, safetensors_parsed(buffer@)->Some_0),
        r matches Ok(v) ==> forall|k: int| 0 <= k < v@.len() ==> valid_f32(#[trigger] v@[k]) && within_data(buffer@, v@[k].data@),
        r matches Err(e) ==> e is SerializationError,
{
    if data_end_overflow(buffer) {
        return Err(EngineError::SerializationError("SafeTensors data offsets overflow".to_string()));
    }
    match deserialize_tensors(buffer) {
        Ok(entries) => {
            let ghost m = safetensors_parsed(buffer@)->Some_0;
            let ghost v = entries@;
            let r = check_stored_tensors(entries);
            proof {
                if r is Ok {
                    assert forall|n: Seq<char>| #[trigger] m.contains_key(n) implies valid_parsed_entry(m[n]) by {
                        let k = choose|k: int| 0 <= k < v.len() && (#[trigger] v[k]).name@ == n;
                        assert(valid_f32(v[k]));
                    }
                } else {
                    let k = choose|k: int| 0 <= k < v.len() && !(valid_f32(#[trigger] v[k]) && numel_spec(v[k].shape@) * 4 <= usize::MAX);
                    assert(m.contains_key(v[k].name@));
                    assert(!valid_parsed_entry(m[v[k].name@]));
                }
            }
            r
        },
        Err(_) => Err(EngineError::SerializationError("SafeTensors deserialization error".to_string())),
    }
}

/// The bytes of a safetensors file holding each entry as an `f32` tensor; refused when an
/// entry's bytes do not hold exactly its elements.
pub fn save_safetensors_bytes(entries: &Vec<StoredTensor>) -> (r: Result<Vec<u8>, EngineError>)
    requires
        forall|k: int| 0 <= k < entries@.len() ==> shape_fits((#[trigger] entries@[k]).shape@)
            && numel_spec(entries@[k].shape@) * 4 <= usize::MAX,
    ensures
        r is Ok <==> forall|k: int| 0 <= k < entries@.len() ==> numel_spec((#[trigger] entries@[k]).shape@) * 4 == entries@[k].data@.len(),
        r matches Ok(b) ==> b@ == safetensors_bytes(entries_view(entries@)),
        r matches Err(e) ==> e is SerializationError,
{
    match serialize_f32_entries(entries) {
        Ok(b) => Ok(b),
        Err(_) => Err(EngineError::SerializationError("Failed to create SafeTensors view".to_string())),
    }
}

} // verus!
