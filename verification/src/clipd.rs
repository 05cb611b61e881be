//! Clipboard-history import: recognising UTF-16LE blobs that clipman
//! stored, and planning which entries to insert in which order.
use vstd::prelude::*;
use crate::text::{chars_of, string_from_chars};

verus! {

/// UTF-16 decoding: a unit outside the surrogate range is its own
/// character, a high surrogate followed by a low one is the pair's
/// supplementary character, and any other surrogate makes the whole
/// input invalid (`None`).
pub open spec fn utf16_decode(units: Seq<u16>) -> Option<Seq<char>>
    decreases units.len(),
{
    if units.len() == 0 {
        Some(Seq::empty())
    } else {
        let u = units[0];
        if u < 0xD800 || u > 0xDFFF {
            match utf16_decode(units.skip(1)) {
                Some(r) => Some(seq![u as char] + r),
                None => None,
            }
        } else if u <= 0xDBFF && units.len() >= 2 && 0xDC00 <= units[1] && units[1] <= 0xDFFF {
            let c = 0x10000 + (u - 0xD800) * 0x400 + (units[1] - 0xDC00);
            match utf16_decode(units.skip(2)) {
                Some(r) => Some(seq![c as char] + r),
                None => None,
            }
        } else {
            None
        }
    }
}

/// Decode UTF-16 code units.
/// Trusted: calls `String::from_utf16`, which std documents as decoding
/// UTF-16 and returning an error when the input holds an invalid
/// (unpaired) surrogate; the decoding is stated by `utf16_decode`.
#[verifier::external_body]
fn from_utf16(units: &[u16]) -> (r: Option<String>)
    ensures
        r.deep_view() == utf16_decode(units@),
{
    String::from_utf16(units).ok()
}

/// Little-endian 16-bit units of an even-length byte string.
pub open spec fn le_units(b: Seq<u8>) -> Seq<u16> {
    Seq::new(b.len() / 2, |i: int| (b[2 * i] as u16 + 256 * (b[2 * i + 1] as u16)) as u16)
}

/// The number of zero bytes at odd positions among the first `pairs` pairs.
pub open spec fn odd_nuls(b: Seq<u8>, pairs: int) -> nat
    decreases pairs,
{
    if pairs <= 0 {
        0
    } else {
        odd_nuls(b, pairs - 1) + if b[2 * (pairs - 1) + 1] == 0 { 1nat } else { 0nat }
    }
}

/// `s` without trailing NUL characters.
pub open spec fn trim_end_nul(s: Seq<char>) -> Seq<char>
    decreases s.len(),
{
    if s.len() > 0 && s.last() == '\0' { trim_end_nul(s.drop_last()) } else { s }
}

/// The payload as UTF-16LE text when it looks like UTF-16LE: an even length
/// of at least 4 and either a `FF FE` byte-order mark (then dropped) or at
/// least 70% zero high bytes among the first 32 pairs.
pub open spec fn spec_utf16_payload(b: Seq<u8>) -> Option<Seq<u8>> {
    if b.len() < 4 || b.len() % 2 != 0 {
        None
    } else if b[0] == 0xFFu8 && b[1] == 0xFEu8 {
        Some(b.skip(2))
    } else {
        let sample = if b.len() < 64 { b.len() as int } else { 64 };
        let pairs = sample / 2;
        if odd_nuls(b, pairs) * 10 < pairs * 7 { None } else { Some(b) }
    }
}

pub open spec fn spec_decode_utf16_if_likely(b: Seq<u8>) -> Option<Seq<char>> {
    match spec_utf16_payload(b) {
        None => None,
        Some(p) => match utf16_decode(le_units(p)) {
            Some(s) => Some(trim_end_nul(s)),
            None => None,
        },
    }
}

fn count_odd_nuls(b: &[u8], pairs: usize) -> (n: usize)
    requires
        2 * pairs <= b@.len(),
        pairs <= 32,
    ensures
        n == odd_nuls(b@, pairs as int),
        n <= pairs,
{
    let mut n: usize = 0;
    let mut i: usize = 0;
    while i < pairs
        invariant
            i <= pairs,
            2 * pairs <= b@.len(),
            pairs <= 32,
            n == odd_nuls(b@, i as int),
            n <= i,
        decreases pairs - i,
    {
        if b[i * 2 + 1] == 0 {
            n = n + 1;
        }
        i = i + 1;
    }
    n
}

/// Decode a clipboard entry that looks like UTF-16LE; `None` when it does
/// not look like it or does not decode.
pub fn decode_utf16_if_likely(bytes: &[u8]) -> (r: Option<String>)
    ensures
        r.deep_view() == spec_decode_utf16_if_likely(bytes@),
{
    let len = bytes.len();
    if len < 4 || len % 2 != 0 {
        return None;
    }
    let start: usize = if bytes[0] == 0xFF && bytes[1] == 0xFE {
        2
    } else {
        let sample = if len < 64 { len } else { 64 };
        let pairs = sample / 2;
        let nuls = count_odd_nuls(bytes, pairs);
        if nuls * 10 < pairs * 7 {
            return None;
        }
        0
    };
    let ghost p = bytes@.skip(start as int);
    assert(start == 0 ==> p =~= bytes@);
    assert(spec_utf16_payload(bytes@) == Some(p));
    let mut units: Vec<u16> = Vec::new();
    let mut i: usize = start;
    while i + 1 < len
        invariant
            start <= i <= len,
            len == bytes@.len(),
            (i - start) % 2 == 0,
            len % 2 == 0,
            start % 2 == 0,
            p == bytes@.skip(start as int),
            units@ == le_units(p).take((i - start) / 2),
        decreases len - i,
    {
        let u: u16 = bytes[i] as u16 + 256 * (bytes[i + 1] as u16);
        units.push(u);
        i = i + 2;
        assert(units@ =~= le_units(p).take((i - start) / 2));
    }
    assert(units@ =~= le_units(p));
    let s = match from_utf16(units.as_slice()) {
        Some(s) => s,
        None => return None,
    };
    let mut cs = chars_of(s.as_str());
    let ghost full = cs@;
    while cs.len() > 0 && cs[cs.len() - 1] == '\0'
        invariant
            trim_end_nul(cs@) == trim_end_nul(full),
        decreases cs@.len(),
    {
        let ghost before = cs@;
        cs.pop();
        assert(cs@ =~= before.drop_last());
    }
    Some(string_from_chars(cs.as_slice()))
}

/// One clipboard entry to insert.
pub struct ImportEntry {
    /// The stored text bytes (UTF-16 entries converted to UTF-8).
    pub bytes: Vec<u8>,
    /// Position counted from the oldest entry; added to the import time so
    /// newer entries sort later.
    pub offset: usize,
    /// Whether the entry was converted from UTF-16.
    pub converted: bool,
}

/// The bytes stored for a history item: its UTF-16 decoding when it looks
/// like UTF-16LE, else the item itself.
pub open spec fn import_bytes(text: Seq<char>) -> Seq<u8> {
    match spec_decode_utf16_if_likely(vstd::utf8::encode_utf8(text)) {
        Some(s) => vstd::utf8::encode_utf8(s),
        None => vstd::utf8::encode_utf8(text),
    }
}

/// Whether a history item is imported: it is not empty and its stored
/// bytes are not empty.
pub open spec fn keeps(text: Seq<char>) -> bool {
    text.len() > 0 && import_bytes(text).len() > 0
}

/// `e` is the entry imported for history item `text`.
pub open spec fn entry_imported(text: Seq<char>, e: ImportEntry) -> bool {
    &&& keeps(text)
    &&& e.bytes@ == import_bytes(text)
    &&& e.converted == spec_decode_utf16_if_likely(vstd::utf8::encode_utf8(text)) is Some
}

/// The entries to insert for a clipman history (newest first): oldest
/// first, skipping empty items and items that decode to nothing.
/// The number of non-empty items that look like UTF-16LE and decode,
/// whether or not they decode to anything.
pub open spec fn converted_count(items: Seq<String>) -> nat
    decreases items.len(),
{
    if items.len() == 0 {
        0
    } else {
        let t = items[0]@;
        (if t.len() > 0 && spec_decode_utf16_if_likely(vstd::utf8::encode_utf8(t)) is Some { 1nat } else { 0nat })
            + converted_count(items.drop_first())
    }
}

/// What an import will insert, and how many items were converted from
/// UTF-16 on the way.
pub struct ImportPlan {
    pub entries: Vec<ImportEntry>,
    pub converted: usize,
}

pub fn plan_import(items: &Vec<String>) -> (plan: ImportPlan)
    ensures
        plan.converted == converted_count(items@),
        ({
            let r = plan.entries;
            &&& forall|k: int| 0 <= k < r@.len() ==> {
            let e = #[trigger] r@[k];
            &&& e.offset < items@.len()
            &&& entry_imported(items@[items@.len() - 1 - e.offset]@, e)
            }
            &&& forall|k: int, l: int| 0 <= k < l < r@.len() ==> r@[k].offset < r@[l].offset
            &&& forall|i: int| 0 <= i < items@.len() && keeps(#[trigger] items@[i]@)
                ==> exists|k: int| 0 <= k < r@.len() && r@[k].offset == items@.len() - 1 - i
        }),
{
    let n = items.len();
    let mut out: Vec<ImportEntry> = Vec::new();
    let mut converted_total: usize = 0;
    let mut rev_ix: usize = 0;
    assert(items@.skip(n as int) =~= Seq::<String>::empty());
    while rev_ix < n
        invariant
            n == items@.len(),
            rev_ix <= n,
            converted_total == converted_count(items@.skip(n - rev_ix)),
            converted_total <= rev_ix,
            forall|k: int| 0 <= k < out@.len() ==> {
                let e = #[trigger] out@[k];
                &&& e.offset < rev_ix
                &&& entry_imported(items@[n - 1 - e.offset]@, e)
            },
            forall|k: int, l: int| 0 <= k < l < out@.len() ==> out@[k].offset < out@[l].offset,
            forall|i: int| n - rev_ix <= i < n && keeps(#[trigger] items@[i]@)
                ==> exists|k: int| 0 <= k < out@.len() && out@[k].offset == n - 1 - i,
        decreases n - rev_ix,
    {
        let raw = &items[n - 1 - rev_ix];
        proof {
            let k = n - 1 - rev_ix;
            assert(items@.skip(k as int).drop_first() =~= items@.skip(k + 1));
            assert(items@.skip(k as int)[0] == items@[k as int]);
        }
        if !raw.as_str().is_empty() {
            let bytes = raw.as_str().as_bytes();
            let (normalized, converted) = match decode_utf16_if_likely(bytes) {
                Some(s) => (string_bytes(&s), true),
                None => (slice_to_vec(bytes), false),
            };
            if converted {
                converted_total = converted_total + 1;
            }
            if normalized.len() > 0 {
                let ghost before = out@;
                out.push(ImportEntry { bytes: normalized, offset: rev_ix, converted });
                proof {
                    assert(out@[out@.len() - 1].offset == rev_ix);
                    assert forall|i: int| n - (rev_ix + 1) <= i < n && keeps(#[trigger] items@[i]@)
                        implies exists|k: int| 0 <= k < out@.len() && out@[k].offset == n - 1 - i by {
                        if i > n - 1 - rev_ix {
                            let k = choose|k: int| 0 <= k < before.len() && before[k].offset == n - 1 - i;
                            assert(out@[k] == before[k]);
                        } else {
                            assert(out@[out@.len() - 1].offset == n - 1 - i);
                        }
                    }
                }
            }
        }
        rev_ix = rev_ix + 1;
    }
    assert(items@.skip(0) =~= items@);
    ImportPlan { entries: out, converted: converted_total }
}

fn string_bytes(s: &String) -> (v: Vec<u8>)
    ensures
        v@ == vstd::utf8::encode_utf8(s@),
{
    slice_to_vec(s.as_str().as_bytes())
}

fn slice_to_vec(b: &[u8]) -> (v: Vec<u8>)
    ensures
        v@ == b@,
{
    let mut v: Vec<u8> = Vec::new();
    let mut i: usize = 0;
    while i < b.len()
        invariant
            i <= b@.len(),
            v@ == b@.take(i as int),
        decreases b@.len() - i,
    {
        v.push(b[i]);
        i = i + 1;
        assert(v@ =~= b@.take(i as int));
    }
    assert(b@.take(i as int) =~= b@);
    v
}

} // verus!
