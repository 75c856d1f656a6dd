//! A model of what the engine does to the tracee's memory.
//!
//! The tracee's address space is outside the debugger, so nothing in this
//! module runs. It states, over a map from address to byte, what one byte
//! patch does when the tracing primitive reads and writes whole words, and
//! proves the laws that the breakpoint logic relies on: a patch changes one
//! byte and no other, it returns the byte it displaced, and the shadow map
//! names only addresses that hold the trap byte.

use crate::word::{base_of, byte_at, offset_of, with_byte, word_from, TRAP_BYTE};
use crate::word::{lemma_other_bytes, lemma_patched_byte, lemma_word_from_bytes};
use vstd::prelude::*;

verus! {

/// Whether all eight bytes of the word at `base` are mapped.
pub open spec fn word_mapped(memory: Map<usize, u8>, base: usize) -> bool {
    forall|a: usize| base <= a < base + 8 ==> #[trigger] memory.dom().contains(a)
}

/// The word that the tracing primitive reads at `base`.
pub open spec fn peek(memory: Map<usize, u8>, base: usize) -> u64 {
    word_from(Seq::new(8, |i: int| memory[(base + i) as usize]))
}

/// The memory after the tracing primitive has written `word` at `base`.
pub open spec fn poke(memory: Map<usize, u8>, base: usize, word: u64) -> Map<usize, u8> {
    Map::new(
        |a: usize| memory.dom().contains(a),
        |a: usize|
            if base <= a < base + 8 {
                byte_at(word, (a - base) as u64)
            } else {
                memory[a]
            },
    )
}

/// The shadow map after a patch of `value` at `addr` that displaced
/// `original`. Writing the trap byte at an address that the map does not
/// hold records the displaced byte. At an address that the map holds, the
/// byte it holds is the original one and stays: a second breakpoint there,
/// or the re-arming of the first, displaces the trap byte or a byte that
/// came from the map. Writing any other byte leaves the map alone.
pub open spec fn shadow_after(shadow: Map<usize, u8>, addr: usize, value: u8, original: u8) -> Map<
    usize,
    u8,
> {
    if value == TRAP_BYTE && !shadow.dom().contains(addr) {
        shadow.insert(addr, original)
    } else {
        shadow
    }
}

/// The tracee's memory together with the engine's shadow map.
pub struct Snapshot {
    pub memory: Map<usize, u8>,
    pub shadow: Map<usize, u8>,
}

impl Snapshot {
    /// The word boundary below `addr`.
    pub open spec fn base(addr: usize) -> usize {
        base_of(addr as int) as usize
    }

    /// Whether a byte patch at `addr` can read and write its word.
    pub open spec fn patchable(self, addr: usize) -> bool {
        word_mapped(self.memory, Self::base(addr))
    }

    /// The byte that a patch at `addr` reports as displaced.
    pub open spec fn displaced(self, addr: usize) -> u8 {
        byte_at(peek(self.memory, Self::base(addr)), offset_of(addr as int) as u64)
    }

    /// The state after a byte patch of `value` at `addr`: the word around
    /// `addr` is read, one byte of it replaced, the word written back, and
    /// the shadow map brought up to date.
    pub open spec fn write_byte(self, addr: usize, value: u8) -> Snapshot {
        let base = Self::base(addr);
        let word = peek(self.memory, base);
        Snapshot {
            memory: poke(self.memory, base, with_byte(word, offset_of(addr as int) as u64, value)),
            shadow: shadow_after(self.shadow, addr, value, self.displaced(addr)),
        }
    }

    /// Every address in the shadow map is mapped and holds the trap byte.
    pub open spec fn consistent(self) -> bool {
        forall|a: usize| #[trigger]
            self.shadow.dom().contains(a) ==> self.memory.dom().contains(a) && self.memory[a]
                == TRAP_BYTE
    }

    /// Whether the state is the memory `image` with breakpoints in it and
    /// nothing else: every address holds the byte of `image`, but for the
    /// addresses of the shadow map, which hold the trap byte while the map
    /// holds the byte of `image`.
    pub open spec fn overlays(self, image: Map<usize, u8>) -> bool {
        &&& self.memory.dom() == image.dom()
        &&& forall|a: usize| #[trigger]
            image.dom().contains(a) ==> if self.shadow.dom().contains(a) {
                self.memory[a] == TRAP_BYTE && self.shadow[a] == image[a]
            } else {
                self.memory[a] == image[a]
            }
        &&& forall|a: usize| #[trigger] self.shadow.dom().contains(a) ==> image.dom().contains(a)
    }
}

/// The word read at the boundary below `addr` holds the byte of `addr` at
/// its offset, and each mapped neighbour at its own.
pub proof fn lemma_peek_bytes(memory: Map<usize, u8>, base: usize, a: usize)
    requires
        base % 8 == 0,
        base <= a < base + 8,
    ensures
        byte_at(peek(memory, base), (a - base) as u64) == memory[a],
{
    let bytes = Seq::new(8, |i: int| memory[(base + i) as usize]);
    lemma_word_from_bytes(bytes, (a - base) as u64);
}

/// A byte patch changes the byte at its address, at any alignment, and no
/// other byte; it reports the byte that was there before.
pub proof fn lemma_patch_touches_one_byte(s: Snapshot, addr: usize, value: u8)
    requires
        s.patchable(addr),
    ensures
        s.write_byte(addr, value).memory == s.memory.insert(addr, value),
        s.displaced(addr) == s.memory[addr],
{
    let base = Snapshot::base(addr);
    let k = offset_of(addr as int) as u64;
    let word = peek(s.memory, base);
    let after = s.write_byte(addr, value).memory;
    lemma_peek_bytes(s.memory, base, addr);
    assert forall|a: usize| #[trigger] after.dom().contains(a) implies after[a] == s.memory.insert(
        addr,
        value,
    )[a] by {
        if base <= a < base + 8 {
            let j = (a - base) as u64;
            if a == addr {
                lemma_patched_byte(word, k, value);
            } else {
                lemma_other_bytes(word, k, value, j);
                lemma_peek_bytes(s.memory, base, a);
            }
        }
    }
}

/// After `first` and then `second` are written at one address the byte
/// there is `second`; the first patch reports the byte that was there
/// before, the second reports `first`.
pub proof fn lemma_patch_round_trip(s: Snapshot, addr: usize, first: u8, second: u8)
    requires
        s.patchable(addr),
    ensures
        s.write_byte(addr, first).write_byte(addr, second).memory[addr] == second,
        s.write_byte(addr, first).write_byte(addr, second).memory == s.memory.insert(addr, second),
        s.displaced(addr) == s.memory[addr],
        s.write_byte(addr, first).displaced(addr) == first,
{
    lemma_patch_touches_one_byte(s, addr, first);
    let mid = s.write_byte(addr, first);
    lemma_patch_touches_one_byte(mid, addr, second);
}

/// With an empty shadow map there is nothing to be inconsistent.
pub proof fn lemma_fresh_is_consistent(memory: Map<usize, u8>)
    ensures
        (Snapshot { memory, shadow: Map::empty() }).consistent(),
{
}

/// Installing a breakpoint keeps the shadow map consistent: the new entry
/// holds the trap byte, and no other entry's byte was touched.
pub proof fn lemma_install_keeps_consistency(s: Snapshot, addr: usize)
    requires
        s.consistent(),
        s.patchable(addr),
    ensures
        s.write_byte(addr, TRAP_BYTE).consistent(),
        s.write_byte(addr, TRAP_BYTE).shadow == if s.shadow.dom().contains(addr) {
            s.shadow
        } else {
            s.shadow.insert(addr, s.memory[addr])
        },
{
    lemma_patch_touches_one_byte(s, addr, TRAP_BYTE);
}

/// Installing a breakpoint, at a new address or at one that has a
/// breakpoint already, keeps the state an overlay of the same image: the
/// map holds the original byte of every breakpoint, and no byte but those
/// of the breakpoints differs from the image.
pub proof fn lemma_install_keeps_overlay(s: Snapshot, image: Map<usize, u8>, addr: usize)
    requires
        s.overlays(image),
        s.patchable(addr),
    ensures
        s.write_byte(addr, TRAP_BYTE).overlays(image),
        s.write_byte(addr, TRAP_BYTE).shadow.dom() == s.shadow.dom().insert(addr),
{
    lemma_patch_touches_one_byte(s, addr, TRAP_BYTE);
    let after = s.write_byte(addr, TRAP_BYTE);
    assert(after.memory.dom() =~= image.dom());
    assert(after.shadow.dom() =~= s.shadow.dom().insert(addr));
}

/// An overlay is consistent, and writing the map's bytes back gives the
/// image again.
pub proof fn lemma_overlay_is_consistent(s: Snapshot, image: Map<usize, u8>)
    requires
        s.overlays(image),
    ensures
        s.consistent(),
        forall|a: usize| #[trigger]
            s.shadow.dom().contains(a) ==> s.memory.insert(a, s.shadow[a])[a] == image[a],
{
}

/// Crossing a breakpoint, seen from memory: with the tracee stopped at a
/// consistent state, restoring the shadowed byte at `addr` displaces the
/// trap byte, and re-arming afterwards gives back the state from before.
/// Between the two patches `addr` is the one entry that may not hold the
/// trap byte.
pub proof fn lemma_crossing_restores_consistency(s: Snapshot, addr: usize)
    requires
        s.consistent(),
        s.shadow.dom().contains(addr),
        s.patchable(addr),
    ensures
        s.displaced(addr) == TRAP_BYTE,
        forall|a: usize|
            a != addr && #[trigger] s.shadow.dom().contains(a) ==> s.write_byte(
                addr,
                s.shadow[addr],
            ).memory[a] == TRAP_BYTE,
        s.write_byte(addr, s.shadow[addr]).write_byte(addr, TRAP_BYTE).consistent(),
        s.write_byte(addr, s.shadow[addr]).write_byte(addr, TRAP_BYTE) == s,
{
    let original = s.shadow[addr];
    lemma_patch_touches_one_byte(s, addr, original);
    let restored = s.write_byte(addr, original);
    lemma_patch_touches_one_byte(restored, addr, TRAP_BYTE);
    let rearmed = restored.write_byte(addr, TRAP_BYTE);
    assert(rearmed.memory =~= s.memory);
    assert(rearmed.shadow =~= s.shadow);
}

} // verus!
