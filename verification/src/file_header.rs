//! The offsets in the header of a weight file.
//!
//! A file begins with the length of its header in eight bytes, the lowest first, and the header
//! itself, in JSON: an object with an entry for each tensor. An entry is an object with the
//! members `dtype`, `shape` and `data_offsets`, or an array of the three. Where a name comes
//! more than once, the last entry counts.
use vstd::prelude::*;
use vstd::slice::slice_subrange;
use crate::json;
use crate::json::Member;
use crate::raw_tensor;

verus! {

/// Number of bytes that hold the length of the header.
pub const LENGTH_BYTES: usize = 8;

/// The length of the header that a file claims.
pub open spec fn header_len(bytes: Seq<u8>) -> int {
    let lower = raw_tensor::pair_value(bytes[0], bytes[1]) + 0x1_0000 * raw_tensor::pair_value(
        bytes[2],
        bytes[3],
    );
    let upper = raw_tensor::pair_value(bytes[4], bytes[5]) + 0x1_0000 * raw_tensor::pair_value(
        bytes[6],
        bytes[7],
    );
    lower + 0x1_0000_0000 * upper
}

/// The name of the offsets in an entry: `data_offsets`.
pub open spec fn offsets_name() -> Seq<u8> {
    seq![
        0x64u8,
        0x61,
        0x74,
        0x61,
        0x5F,
        0x6F,
        0x66,
        0x66,
        0x73,
        0x65,
        0x74,
        0x73,
    ]
}

/// At `i` an array begins that holds a number above `limit`.
pub open spec fn is_huge_list(h: Seq<u8>, i: int, limit: int) -> bool {
    let found = json::items(h, i + 1);
    &&& i < h.len()
    &&& h[i] == json::ARRAY_START
    &&& exists|k: int|
        0 <= k < found.len() && json::number(h, #[trigger] found[k], 0) > limit
}

/// At `i` an entry begins with an offset above `limit`.
pub open spec fn is_huge_entry(h: Seq<u8>, i: int, limit: int) -> bool {
    &&& i < h.len()
    &&& if h[i] == json::OBJECT_START {
        let found = json::members(h, i + 1);
        exists|k: int|
            0 <= k < found.len() && (#[trigger] found[k]).0 == offsets_name() && is_huge_list(
                h,
                found[k].1,
                limit,
            )
    } else {
        let found = json::items(h, i + 1);
        h[i] == json::ARRAY_START && found.len() > 2 && is_huge_list(h, found[2], limit)
    }
}

/// The entry `k` is the last of its name.
pub open spec fn is_last_of_name(entries: Seq<(Seq<u8>, int)>, k: int) -> bool {
    forall|j: int| k < j < entries.len() ==> (#[trigger] entries[j]).0 != entries[k].0
}

/// An entry of the header that counts has an offset above `limit`.
pub open spec fn is_huge_header(h: Seq<u8>, limit: int) -> bool {
    let start = json::after_space(h, 0);
    let entries = json::members(h, start + 1);
    &&& start < h.len()
    &&& h[start] == json::OBJECT_START
    &&& exists|k: int|
        0 <= k < entries.len() && is_huge_entry(h, (#[trigger] entries[k]).1, limit)
            && is_last_of_name(entries, k)
}

/// The file has a tensor with an offset so large that, counted from the end of the header, it
/// lies beyond what a machine word can hold.
pub open spec fn has_huge_offset(bytes: Seq<u8>) -> bool {
    let n = header_len(bytes);
    &&& bytes.len() >= LENGTH_BYTES
    &&& LENGTH_BYTES + n <= bytes.len()
    &&& is_huge_header(
        bytes.subrange(LENGTH_BYTES as int, LENGTH_BYTES + n),
        usize::MAX - LENGTH_BYTES - n,
    )
}

/// Whether two names are the same.
fn same_name(a: &Vec<u8>, b: &Vec<u8>) -> (r: bool)
    ensures
        r == (a@ == b@),
{
    if a.len() != b.len() {
        return false;
    }
    let mut i: usize = 0;
    while i < a.len()
        invariant
            i <= a@.len(),
            a@.len() == b@.len(),
            forall|j: int| 0 <= j < i ==> a@[j] == b@[j],
        decreases a@.len() - i,
    {
        if a[i] != b[i] {
            return false;
        }
        i = i + 1;
    }
    assert(a@ =~= b@);
    true
}

/// Whether an array begins at `i` that holds a number above `limit`.
fn huge_list(h: &[u8], i: usize, limit: usize) -> (r: bool)
    requires
        i <= h@.len(),
    ensures
        r == is_huge_list(h@, i as int, limit as int),
{
    if i >= h.len() || h[i] != json::ARRAY_START {
        return false;
    }
    let found: Vec<usize> = json::list_items(h, i + 1);
    let ghost all = json::items(h@, i + 1);
    let mut k: usize = 0;
    while k < found.len()
        invariant
            k <= found@.len(),
            i < h@.len(),
            h@[i as int] == json::ARRAY_START,
            all == json::items(h@, i + 1),
            all == json::places(found@),
            forall|j: int| 0 <= j < found@.len() ==> #[trigger] found@[j] < h@.len(),
            forall|j: int| 0 <= j < k ==> json::number(h@, #[trigger] all[j], 0) <= limit,
        decreases found@.len() - k,
    {
        assert(all[k as int] == found@[k as int]);
        if json::exceeds(h, found[k], limit) {
            return true;
        }
        k = k + 1;
    }
    false
}

/// Whether an entry begins at `i` with an offset above `limit`.
fn huge_entry(h: &[u8], i: usize, limit: usize) -> (r: bool)
    requires
        i <= h@.len(),
    ensures
        r == is_huge_entry(h@, i as int, limit as int),
{
    if i >= h.len() {
        return false;
    }
    if h[i] == json::OBJECT_START {
        let wanted: Vec<u8> = vec![
            0x64, 0x61, 0x74, 0x61, 0x5F, 0x6F, 0x66, 0x66, 0x73, 0x65, 0x74, 0x73,
        ];
        assert(wanted@ =~= offsets_name());
        let found: Vec<Member> = json::list_members(h, i + 1);
        let ghost all = json::members(h@, i + 1);
        let mut k: usize = 0;
        while k < found.len()
            invariant
                k <= found@.len(),
                i < h@.len(),
                h@[i as int] == json::OBJECT_START,
                wanted@ == offsets_name(),
                all == json::members(h@, i + 1),
                all == json::listed(found@),
                forall|j: int| 0 <= j < found@.len() ==> (#[trigger] found@[j]).value <= h@.len(),
                forall|j: int|
                    0 <= j < k ==> !((#[trigger] all[j]).0 == offsets_name() && is_huge_list(
                        h@,
                        all[j].1,
                        limit as int,
                    )),
            decreases found@.len() - k,
        {
            assert(all[k as int] == (found@[k as int].name@, found@[k as int].value as int));
            if same_name(&found[k].name, &wanted) && huge_list(h, found[k].value, limit) {
                return true;
            }
            k = k + 1;
        }
        return false;
    }
    if h[i] == json::ARRAY_START {
        let found: Vec<usize> = json::list_items(h, i + 1);
        assert(json::places(found@).len() == found@.len());
        if found.len() > 2 {
            assert(json::places(found@)[2] == found@[2]);
            return huge_list(h, found[2], limit);
        }
    }
    false
}

/// Whether the entry `k` is the last of its name.
fn last_of_name(entries: &Vec<Member>, k: usize) -> (r: bool)
    requires
        k < entries@.len(),
    ensures
        r == is_last_of_name(json::listed(entries@), k as int),
{
    let ghost all = json::listed(entries@);
    let n: usize = entries.len();
    let mut j: usize = k + 1;
    while j < n
        invariant
            k < j <= n,
            n == entries@.len(),
            all == json::listed(entries@),
            forall|l: int| k < l < j ==> (#[trigger] all[l]).0 != all[k as int].0,
        decreases n - j,
    {
        if same_name(&entries[j].name, &entries[k].name) {
            assert(all[j as int].0 == all[k as int].0);
            return false;
        }
        j = j + 1;
    }
    true
}

/// Whether an entry of the header that counts has an offset above `limit`.
pub fn header_is_huge(h: &[u8], limit: usize) -> (r: bool)
    ensures
        r == is_huge_header(h@, limit as int),
{
    let start: usize = json::skip_space(h, 0);
    if start >= h.len() || h[start] != json::OBJECT_START {
        return false;
    }
    let entries: Vec<Member> = json::list_members(h, start + 1);
    let ghost all = json::members(h@, start + 1);
    let mut k: usize = 0;
    while k < entries.len()
        invariant
            k <= entries@.len(),
            start == json::after_space(h@, 0),
            start < h@.len(),
            h@[start as int] == json::OBJECT_START,
            all == json::members(h@, start + 1),
            all == json::listed(entries@),
            forall|j: int| 0 <= j < entries@.len() ==> (#[trigger] entries@[j]).value <= h@.len(),
            forall|j: int|
                0 <= j < k ==> !(is_huge_entry(h@, (#[trigger] all[j]).1, limit as int)
                    && is_last_of_name(all, j)),
        decreases entries@.len() - k,
    {
        assert(all[k as int].1 == entries@[k as int].value);
        if huge_entry(h, entries[k].value, limit) && last_of_name(&entries, k) {
            return true;
        }
        k = k + 1;
    }
    false
}

/// Whether the file has a tensor with an offset that no machine word can hold.
pub fn holds_huge_offset(bytes: &[u8]) -> (r: bool)
    ensures
        r == has_huge_offset(bytes@),
{
    if bytes.len() < LENGTH_BYTES {
        return false;
    }
    let b01: u64 = raw_tensor::pair(bytes[0], bytes[1]) as u64;
    let b23: u64 = raw_tensor::pair(bytes[2], bytes[3]) as u64;
    let b45: u64 = raw_tensor::pair(bytes[4], bytes[5]) as u64;
    let b67: u64 = raw_tensor::pair(bytes[6], bytes[7]) as u64;
    let n: u64 = b01 + 0x1_0000 * b23 + 0x1_0000_0000 * (b45 + 0x1_0000 * b67);
    if n > (bytes.len() - LENGTH_BYTES) as u64 {
        return false;
    }
    let end: usize = LENGTH_BYTES + n as usize;
    header_is_huge(slice_subrange(bytes, LENGTH_BYTES, end), usize::MAX - end)
}

} // verus!
