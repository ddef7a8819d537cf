//! The sections of a binary: which of them hold a binary in turn.
//!
//! A binary starts with eight bytes that say whether it is a core module or a component. What follows are
//! sections: a byte that says of what kind a section is, the length of its content in the variable-length
//! encoding of base 128, and the content. In a component, a section of kind 1 holds a core module and one
//! of kind 4 a component, each a whole binary.

use vstd::prelude::*;

verus! {

/// The first eight bytes of a component.
pub open spec fn component_preamble() -> Seq<u8> {
    seq![0x00, 0x61, 0x73, 0x6d, 0x0d, 0x00, 0x01, 0x00]
}

/// Whether a component starts at the position.
pub open spec fn component_at(data: Seq<u8>, pos: int) -> bool {
    0 <= pos && pos + 8 <= data.len() && data.subrange(pos, pos + 8) == component_preamble()
}

/// The number of up to 32 bits that starts at the position, and how many bytes it takes: seven bits in
/// each, the lowest first, all but the last with the high bit set. `None` where it is cut off or too
/// large. `read` says how many of its bytes went before.
pub open spec fn number_at(data: Seq<u8>, pos: int, read: nat) -> Option<(nat, nat)>
    decreases 5 - read,
{
    if read >= 5 || pos < 0 || pos >= data.len() || (read == 4 && data[pos] >= 0x10) {
        None
    } else if data[pos] < 0x80 {
        Some((data[pos] as nat, 1))
    } else {
        match number_at(data, pos + 1, read + 1) {
            Some((high, count)) => Some(((data[pos] - 0x80) as nat + 0x80 * high, count + 1)),
            None => None,
        }
    }
}

/// Whether the sections from the position on are well nested. `limit` is where the section ends that
/// claims to hold a core module and holds the component whose sections are being read, or a position
/// that is already passed where there is none.
pub open spec fn well_nested_from(data: Seq<u8>, pos: int, limit: int) -> bool
    decreases
            (if pos < data.len() {
                data.len() - pos
            } else {
                0
            }),
{
    if pos < 0 || pos >= data.len() {
        true
    } else {
        match number_at(data, pos + 1, 0) {
            None => true,
            Some((size, count)) => {
                let kind = data[pos];
                let start = pos + 1 + count;
                if kind != 1 && kind != 4 {
                    well_nested_from(data, start + size, limit)
                } else if pos < limit {
                    false
                } else if size < 8 || !component_at(data, start) {
                    well_nested_from(data, start + size, limit)
                } else if kind == 4 {
                    well_nested_from(data, start + 8, limit)
                } else {
                    well_nested_from(data, start + 8, start + size)
                }
            },
        }
    }
}

/// Whether no section that should hold a core module holds a component with binaries of its own.
pub open spec fn well_nested(data: Seq<u8>) -> bool {
    component_at(data, 0) ==> well_nested_from(data, 8, 0)
}

/// Whether a component starts at the position.
fn starts_component(data: &[u8], pos: usize) -> (res: bool)
    requires
        pos <= data@.len(),
    ensures
        res == component_at(data@, pos as int),
{
    if data.len() - pos < 8 {
        return false;
    }
    let res = data[pos] == 0x00 && data[pos + 1] == 0x61 && data[pos + 2] == 0x73 && data[pos + 3]
        == 0x6d && data[pos + 4] == 0x0d && data[pos + 5] == 0x00 && data[pos + 6] == 0x01 && data[pos
        + 7] == 0x00;
    proof {
        let head = data@.subrange(pos as int, pos + 8);
        if res {
            assert(head =~= component_preamble());
        } else if head == component_preamble() {
            assert(forall|i: int| 0 <= i < 8 ==> #[trigger] head[i] == data@[pos + i]);
            assert(head[0] == 0x00 && head[1] == 0x61 && head[2] == 0x73 && head[3] == 0x6d);
            assert(head[4] == 0x0d && head[5] == 0x00 && head[6] == 0x01 && head[7] == 0x00);
        }
    }
    res
}

/// Reads the number that starts at the position, of which the given number of bytes went before.
fn read_number(data: &[u8], pos: usize, read: u8) -> (res: Option<(u64, usize)>)
    requires
        pos <= data@.len(),
        read <= 5,
    ensures
        match (res, number_at(data@, pos as int, read as nat)) {
            (Some(r), Some(e)) => r.0 == e.0 && r.1 == e.1,
            (None, None) => true,
            _ => false,
        },
        res matches Some(r) ==> pos + r.1 <= data@.len() && r.0 <= (if read == 0 {
            0xffff_ffffint
        } else if read == 1 {
            0x1ff_ffffint
        } else if read == 2 {
            0x3_ffffint
        } else if read == 3 {
            0x7ffint
        } else {
            0xfint
        }),
    decreases 5 - read,
{
    if read >= 5 || pos >= data.len() || (read == 4 && data[pos] >= 0x10) {
        return None;
    }
    let byte: u8 = data[pos];
    if byte < 0x80 {
        return Some((byte as u64, 1));
    }
    match read_number(data, pos + 1, read + 1) {
        Some((high, count)) => Some(((byte - 0x80) as u64 + 0x80 * high, count + 1)),
        None => None,
    }
}

/// Whether no section that should hold a core module holds a component with binaries of its own.
pub fn is_well_nested(data: &[u8]) -> (res: bool)
    ensures
        res == well_nested(data@),
{
    if !starts_component(data, 0) {
        return true;
    }
    let n: usize = data.len();
    let mut pos: usize = 8;
    let mut limit: u128 = 0;
    while pos < n
        invariant
            n == data@.len(),
            component_at(data@, 0),
            well_nested(data@) == well_nested_from(data@, pos as int, limit as int),
        decreases n - pos,
    {
        let kind: u8 = data[pos];
        let (size, count) = match read_number(data, pos + 1, 0) {
            Some(r) => r,
            None => {
                return true;
            },
        };
        let start: usize = pos + 1 + count;
        let nests = kind == 1 || kind == 4;
        if nests && (pos as u128) < limit {
            return false;
        }
        if nests && size >= 8 && starts_component(data, start) {
            if kind == 1 {
                limit = start as u128 + size as u128;
            }
            pos = start + 8;
        } else {
            if size >= (n - start) as u64 {
                assert(well_nested_from(data@, start + size, limit as int));
                return true;
            }
            pos = start + size as usize;
        }
    }
    true
}

/// The binary with each section from the position on that should hold a core module, and holds a component,
/// turned into one for a component.
pub open spec fn mended_from(data: Seq<u8>, pos: int) -> Seq<u8>
    decreases
            (if pos < data.len() {
                data.len() - pos
            } else {
                0
            }),
{
    if pos < 0 || pos >= data.len() {
        data
    } else {
        match number_at(data, pos + 1, 0) {
            None => data,
            Some((size, count)) => {
                let start = pos + 1 + count;
                if size < 8 || !component_at(data, start) || (data[pos] != 1 && data[pos] != 4) {
                    mended_from(data, start + size)
                } else {
                    mended_from(data.update(pos, 4), start + 8)
                }
            },
        }
    }
}

/// The binary with each section that should hold a core module, and holds a component, turned into one for a
/// component.
pub open spec fn mended(data: Seq<u8>) -> Seq<u8> {
    mended_from(data, 8)
}

/// Turns each section that should hold a core module, and holds a component, into one for a component.
pub fn mend(data: &[u8]) -> (res: Vec<u8>)
    ensures
        res@ == mended(data@),
{
    let n: usize = data.len();
    let mut out: Vec<u8> = Vec::new();
    out.extend_from_slice(data);
    assert(out@ =~= data@);
    let mut pos: usize = 8;
    while pos < n
        invariant
            n == out@.len(),
            mended_from(out@, pos as int) == mended(data@),
        decreases n - pos,
    {
        let kind: u8 = out[pos];
        let (size, count) = match read_number(out.as_slice(), pos + 1, 0) {
            Some(r) => r,
            None => {
                return out;
            },
        };
        let start: usize = pos + 1 + count;
        if (kind == 1 || kind == 4) && size >= 8 && starts_component(out.as_slice(), start) {
            out.set(pos, 4);
            pos = start + 8;
        } else {
            if size >= (n - start) as u64 {
                assert(mended_from(out@, start + size) == out@);
                return out;
            }
            pos = start + size as usize;
        }
    }
    out
}

// ---------------------------------------------------------------------------
// Laws
// ---------------------------------------------------------------------------

/// Mending a binary keeps its length and all of its bytes, but for kinds of sections that are turned from those of a core
/// module into those of a component.
pub proof fn law_mending_changes_kinds_alone(data: &[u8], res: Vec<u8>)
    requires
        call_ensures(mend, (data,), res),
    ensures
        res@.len() == data@.len(),
        forall|i: int|
            0 <= i < data@.len() ==> (#[trigger] res@[i]) == data@[i] || (data@[i] == 1 && res@[i] == 4),
{
    lemma_mended(data@, 8);
}

/// Mending from a position on changes kinds alone.
proof fn lemma_mended(data: Seq<u8>, pos: int)
    requires
        pos >= 0,
    ensures
        mended_from(data, pos).len() == data.len(),
        forall|i: int|
            0 <= i < data.len() ==> (#[trigger] mended_from(data, pos)[i]) == data[i] || (data[i] == 1
                && mended_from(data, pos)[i] == 4),
    decreases
            (if pos < data.len() {
                data.len() - pos
            } else {
                0
            }),
{
    if pos < data.len() {
        if let Some((size, count)) = number_at(data, pos + 1, 0) {
            let start = pos + 1 + count;
            if size < 8 || !component_at(data, start) || (data[pos] != 1 && data[pos] != 4) {
                lemma_mended(data, start + size);
            } else {
                let next = data.update(pos, 4);
                lemma_mended(next, start + 8);
                assert forall|i: int| 0 <= i < data.len() implies (#[trigger] mended_from(data, pos)[i])
                    == data[i] || (data[i] == 1 && mended_from(data, pos)[i] == 4) by {
                    assert(mended_from(next, start + 8)[i] == next[i] || (next[i] == 1 && mended_from(
                        next,
                        start + 8,
                    )[i] == 4));
                }
            }
        }
    }
}

/// What is no component is well nested, and so is a component that cannot hold a binary, because no byte says so. The
/// latter is left as it is.
pub proof fn law_nothing_nested(data: &[u8], nested: bool, res: Vec<u8>)
    requires
        call_ensures(is_well_nested, (data,), nested),
        call_ensures(mend, (data,), res),
    ensures
        data@.len() < 8 || data@.take(8) != seq![
            0x00u8,
            0x61u8,
            0x73u8,
            0x6du8,
            0x0du8,
            0x00u8,
            0x01u8,
            0x00u8,
        ] ==> nested,
        (forall|i: int| 8 <= i < data@.len() ==> (#[trigger] data@[i]) != 1 && data@[i] != 4) ==> nested
            && res@ == data@,
{
    if data@.len() >= 8 {
        assert(data@.subrange(0, 8) =~= data@.take(8));
    }
    if forall|i: int| 8 <= i < data@.len() ==> (#[trigger] data@[i]) != 1 && data@[i] != 4 {
        lemma_nothing_nested(data@, 8);
    }
}

/// Without a kind that says so, no section holds a binary.
proof fn lemma_nothing_nested(data: Seq<u8>, pos: int)
    requires
        pos >= 8,
        forall|i: int| 8 <= i < data.len() ==> (#[trigger] data[i]) != 1 && data[i] != 4,
    ensures
        well_nested_from(data, pos, 0),
        mended_from(data, pos) == data,
    decreases
            (if pos < data.len() {
                data.len() - pos
            } else {
                0
            }),
{
    if pos < data.len() {
        if let Some((size, count)) = number_at(data, pos + 1, 0) {
            assert(data[pos] != 1 && data[pos] != 4);
            lemma_nothing_nested(data, pos + 1 + count + size);
        }
    }
}

/// The number that bytes stand for, the lowest seven bits first.
pub open spec fn low_first(bytes: Seq<u8>) -> int
    decreases bytes.len(),
{
    if bytes.len() == 0 {
        0
    } else {
        bytes[0] as int % 0x80 + 0x80 * low_first(bytes.drop_first())
    }
}

/// A number takes up to five bytes, of which only the last one lacks the high bit. It is made of their seven lower bits, the
/// lowest first, and has 32 bits at most.
pub proof fn law_numbers_are_read(data: Seq<u8>, pos: int)
    requires
        pos >= 0,
    ensures
        number_at(data, pos, 0) matches Some((value, count)) ==> {
            &&& 1 <= count <= 5
            &&& pos + count <= data.len()
            &&& value == low_first(data.subrange(pos, pos + count))
            &&& value <= 0xffff_ffff
            &&& data[pos + count - 1] < 0x80
            &&& forall|i: int| pos <= i < pos + count - 1 ==> (#[trigger] data[i]) >= 0x80
        },
        pos < data.len() && data[pos] < 0x80 ==> number_at(data, pos, 0) == Some((data[pos] as nat, 1nat)),
{
    lemma_numbers(data, pos, 0);
}

/// The rest of a number is read in the same way.
proof fn lemma_numbers(data: Seq<u8>, pos: int, read: nat)
    requires
        pos >= 0,
        read <= 5,
    ensures
        number_at(data, pos, read) matches Some((value, count)) ==> {
            &&& 1 <= count <= 5 - read
            &&& pos + count <= data.len()
            &&& value == low_first(data.subrange(pos, pos + count))
            &&& value <= (if read == 0 {
                0xffff_ffffint
            } else if read == 1 {
                0x1ff_ffffint
            } else if read == 2 {
                0x3_ffffint
            } else if read == 3 {
                0x7ffint
            } else {
                0xfint
            })
            &&& data[pos + count - 1] < 0x80
            &&& forall|i: int| pos <= i < pos + count - 1 ==> (#[trigger] data[i]) >= 0x80
        },
    decreases 5 - read,
{
    if let Some((value, count)) = number_at(data, pos, read) {
        if data[pos] >= 0x80 {
            lemma_numbers(data, pos + 1, read + 1);
        }
        let bytes = data.subrange(pos, pos + count);
        assert(bytes[0] == data[pos]);
        if data[pos] < 0x80 {
            assert(bytes.drop_first() =~= Seq::<u8>::empty());
            assert(low_first(Seq::<u8>::empty()) == 0);
        } else {
            let (high, less) = number_at(data, pos + 1, read + 1)->0;
            assert(bytes.drop_first() =~= data.subrange(pos + 1, pos + 1 + less));
        }
    }
}

/// A component whose first section should hold a core module, and holds a component that has a section for a binary in
/// turn, is not well nested.
pub proof fn law_binary_in_a_false_module(data: &[u8], size: u8, inner: u8, kind: u8, res: bool)
    requires
        call_ensures(is_well_nested, (data,), res),
        data@.len() >= 20,
        data@.take(8) == component_preamble(),
        data@[8] == 1,
        data@[9] == size,
        10 <= size < 0x80,
        data@.subrange(10, 18) == component_preamble(),
        data@[18] == kind,
        kind == 1 || kind == 4,
        data@[19] == inner,
        inner < 0x80,
    ensures
        !res,
{
    let bytes = data@;
    assert(bytes.subrange(0, 8) =~= bytes.take(8));
    assert(number_at(bytes, 9, 0) == Some((size as nat, 1nat)));
    assert(number_at(bytes, 19, 0) == Some((inner as nat, 1nat)));
    assert(component_at(bytes, 10));
    assert(well_nested_from(bytes, 8, 0) == well_nested_from(bytes, 18, 10 + size));
    assert(!well_nested_from(bytes, 18, 10 + size));
}

/// The first bytes of a component are those of the format: a zero, `asm`, the version 13 and the layer 1.
pub proof fn law_preamble()
    ensures
        component_preamble() == seq![0x00u8, 0x61u8, 0x73u8, 0x6du8, 0x0du8, 0x00u8, 0x01u8, 0x00u8],
{
}

} // verus!
