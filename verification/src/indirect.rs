//! Initial content of the indirect buffer.
//!
//! The indirect buffer holds three indices per particle. The third one lists the dead
//! particles, and at first every particle is dead.
use bytemuck::PodCastError;
use vstd::prelude::*;

verus! {

/// Declares `bytemuck::PodCastError`, the reason why a slice cannot be cast.
#[verifier::external_type_specification]
#[verifier::external_body]
pub struct ExPodCastError(bytemuck::PodCastError);

/// The bytes of the indirect buffer cannot be accessed as indices, because they do not start at
/// an address fit for them.
#[derive(Debug, Clone, Copy, PartialEq, Eq, Structural)]
pub struct UnalignedBytes;

/// The `i`-th index stored in some bytes, for either order of the bytes in an index.
pub open spec fn stored_index(little_endian: bool, bytes: Seq<u8>, i: int) -> int {
    if little_endian {
        bytes[4 * i] + 0x100 * bytes[4 * i + 1] + 0x1_0000 * bytes[4 * i + 2] + 0x100_0000
            * bytes[4 * i + 3]
    } else {
        bytes[4 * i + 3] + 0x100 * bytes[4 * i + 2] + 0x1_0000 * bytes[4 * i + 1] + 0x100_0000
            * bytes[4 * i]
    }
}

/// The bytes store exactly the given indices.
pub open spec fn stores(little_endian: bool, bytes: Seq<u8>, indices: Seq<u32>) -> bool {
    &&& bytes.len() == 4 * indices.len()
    &&& forall|i: int|
        0 <= i < indices.len() ==> #[trigger] indices[i] == stored_index(little_endian, bytes, i)
}

/// Gives access to bytes as indices with `bytemuck::try_cast_slice_mut`, which casts in place.
/// If it succeeds, the bytes store the indices before and after any change to them, in the byte
/// order of the machine, which is one of two. Whether it succeeds depends on the address of the
/// bytes, so nothing is said about that.
#[verifier::external_body]
fn as_indices(bytes: &mut [u8]) -> (cast: Result<&mut [u32], PodCastError>)
    ensures
        match cast {
            Ok(indices) => exists|little_endian: bool| #[trigger]
                stores(little_endian, old(bytes)@, indices@) && stores(
                    little_endian,
                    final(bytes)@,
                    final(indices)@,
                ),
            Err(_) => final(bytes)@ == old(bytes)@,
        },
{
    bytemuck::try_cast_slice_mut(bytes)
}

/// The indices after every particle was declared dead: the dead list holds all particles, the
/// last one first, and nothing else changes.
pub open spec fn with_all_dead(before: Seq<u32>, capacity: u32) -> Seq<u32> {
    Seq::new(
        before.len(),
        |i: int|
            if i % 3 == 2 && i / 3 < capacity {
                (capacity - 1 - i / 3) as u32
            } else {
                before[i]
            },
    )
}

/// Declares every particle dead.
pub fn fill_dead_list(indices: &mut [u32], capacity: u32)
    requires
        old(indices)@.len() >= 3 * capacity,
    ensures
        final(indices)@ == with_all_dead(old(indices)@, capacity),
{
    let mut index: u32 = 0;
    while index < capacity
        invariant
            index <= capacity,
            indices@.len() == old(indices)@.len(),
            indices@.len() >= 3 * capacity,
            forall|i: int|
                0 <= i < indices@.len() ==> #[trigger] indices@[i] == (if i % 3 == 2 && i / 3
                    < index {
                    (capacity - 1 - i / 3) as u32
                } else {
                    old(indices)@[i]
                }),
        decreases capacity - index,
    {
        assert(indices.len() == indices@.len());
        indices[3 * index as usize + 2] = capacity - 1 - index;
        index += 1;
    }
    assert(indices@ =~= with_all_dead(old(indices)@, capacity));
}

/// Writes the initial content of an indirect buffer for `capacity` particles.
///
/// Succeeds if the first `12 * capacity` bytes can be cast to indices. That depends on their
/// address, so the contract does not say when; `fill_cast_indices` says what follows either way.
pub fn init_indirect_buffer(bytes: &mut [u8], capacity: u32) -> (done: Result<(), UnalignedBytes>)
    requires
        old(bytes)@.len() >= 12 * capacity,
    ensures
        final(bytes)@.len() == old(bytes)@.len(),
        match done {
            Ok(()) => {
                &&& exists|little_endian: bool, before: Seq<u32>|
                    {
                        &&& before.len() == 3 * capacity
                        &&& #[trigger] stores(
                            little_endian,
                            old(bytes)@.take(12 * capacity),
                            before,
                        )
                        &&& stores(
                            little_endian,
                            final(bytes)@.take(12 * capacity),
                            with_all_dead(before, capacity),
                        )
                    }
                &&& final(bytes)@.skip(12 * capacity) == old(bytes)@.skip(12 * capacity)
            },
            Err(UnalignedBytes) => final(bytes)@ == old(bytes)@,
        },
{
    assert(bytes.len() == bytes@.len());
    let size: usize = capacity as usize * 12;
    let (head, tail) = bytes.split_at_mut(size);
    fill_cast_indices(as_indices(head), capacity)
}

/// Declares every particle dead, if the bytes of the indirect buffer could be cast to indices.
pub fn fill_cast_indices(cast: Result<&mut [u32], PodCastError>, capacity: u32) -> (done: Result<
    (),
    UnalignedBytes,
>)
    requires
        cast matches Ok(indices) ==> indices@.len() >= 3 * capacity,
    ensures
        match cast {
            Ok(indices) => done == Ok::<(), UnalignedBytes>(()) && final(indices)@
                == with_all_dead(indices@, capacity),
            Err(_) => done == Err::<(), UnalignedBytes>(UnalignedBytes),
        },
{
    match cast {
        Ok(indices) => {
            fill_dead_list(indices, capacity);
            Ok(())
        },
        Err(_) => Err(UnalignedBytes),
    }
}

/// Every particle is listed as dead exactly once, at a place of its own.
pub proof fn law_every_particle_starts_dead(before: Seq<u32>, capacity: u32, particle: u32)
    requires
        before.len() == 3 * capacity,
        particle < capacity,
    ensures
        exists|place: int|
            0 <= place < capacity && #[trigger] with_all_dead(before, capacity)[3 * place + 2]
                == particle,
        forall|place: int|
            0 <= place < capacity && #[trigger] with_all_dead(before, capacity)[3 * place + 2]
                == particle ==> place == capacity - 1 - particle,
{
    let place = capacity - 1 - particle;
    assert(with_all_dead(before, capacity)[3 * place + 2] == particle);
}

/// Declaring every particle dead fills the third index of each particle, counting down to zero, and
/// leaves every other index as it was.
pub proof fn law_only_the_dead_list_changes(before: Seq<u32>, capacity: u32)
    requires
        before.len() >= 3 * capacity,
    ensures
        ({
            let after = with_all_dead(before, capacity);
            &&& after.len() == before.len()
            &&& forall|place: int|
                0 <= place < capacity ==> (#[trigger] after[3 * place + 2]) + place + 1 == capacity
            &&& forall|place: int|
                0 <= place < capacity ==> after[3 * place] == #[trigger] before[3 * place]
            &&& forall|place: int|
                0 <= place < capacity ==> after[3 * place + 1] == #[trigger] before[3 * place + 1]
            &&& forall|i: int|
                3 * capacity <= i < before.len() ==> #[trigger] after[i] == before[i]
        }),
{
}

/// Bytes store at most one list of indices for either order of the bytes, and a list of indices is
/// stored by at most one list of bytes.
pub proof fn law_stored_indices_are_unique(
    little_endian: bool,
    bytes: Seq<u8>,
    other_bytes: Seq<u8>,
    indices: Seq<u32>,
    other: Seq<u32>,
)
    requires
        stores(little_endian, bytes, indices),
        stores(little_endian, other_bytes, other),
    ensures
        bytes == other_bytes <==> indices == other,
        bytes.len() == 4 * indices.len(),
{
    if bytes == other_bytes {
        assert forall|i: int| 0 <= i < indices.len() implies indices[i] == other[i] by {
            assert(indices[i] == stored_index(little_endian, bytes, i));
        }
        assert(indices =~= other);
    }
    if indices == other {
        assert forall|b: int| 0 <= b < bytes.len() implies bytes[b] == other_bytes[b] by {
            let i = b / 4;
            assert(indices[i] == stored_index(little_endian, bytes, i));
            assert(other[i] == stored_index(little_endian, other_bytes, i));
            let (p, q, r, s) = (4 * i, 4 * i + 1, 4 * i + 2, 4 * i + 3);
            if little_endian {
                lemma_same_digits(
                    bytes[p] as int,
                    bytes[q] as int,
                    bytes[r] as int,
                    bytes[s] as int,
                    other_bytes[p] as int,
                    other_bytes[q] as int,
                    other_bytes[r] as int,
                    other_bytes[s] as int,
                );
            } else {
                lemma_same_digits(
                    bytes[s] as int,
                    bytes[r] as int,
                    bytes[q] as int,
                    bytes[p] as int,
                    other_bytes[s] as int,
                    other_bytes[r] as int,
                    other_bytes[q] as int,
                    other_bytes[p] as int,
                );
            }
            assert(b == 4 * i || b == 4 * i + 1 || b == 4 * i + 2 || b == 4 * i + 3);
        }
        assert(bytes =~= other_bytes);
    }
}

/// A number has at most one notation of four digits in base 256.
proof fn lemma_same_digits(a: int, b: int, c: int, d: int, e: int, f: int, g: int, h: int)
    requires
        0 <= a < 256 && 0 <= b < 256 && 0 <= c < 256 && 0 <= d < 256,
        0 <= e < 256 && 0 <= f < 256 && 0 <= g < 256 && 0 <= h < 256,
        a + 0x100 * b + 0x1_0000 * c + 0x100_0000 * d == e + 0x100 * f + 0x1_0000 * g + 0x100_0000
            * h,
    ensures
        a == e && b == f && c == g && d == h,
{
    let low = a + 0x100 * b + 0x1_0000 * c;
    let other_low = e + 0x100 * f + 0x1_0000 * g;
    assert(0 <= low < 0x100_0000 && 0 <= other_low < 0x100_0000);
    assert(d == h);
    let lower = a + 0x100 * b;
    let other_lower = e + 0x100 * f;
    assert(0 <= lower < 0x1_0000 && 0 <= other_lower < 0x1_0000);
    assert(c == g);
    assert(b == f);
}

} // verus!
