//! A bump arena of fixed capacity.
//!
//! The arena owns one buffer of `ARENA_SIZE_BYTES` zeroed bytes and a cursor
//! that only moves forward. A reservation takes the bytes from the cursor on
//! and moves the cursor past them; nothing is ever given back. What a caller
//! holds is a region: the place of its bytes in the buffer. The bytes are
//! read and written through the arena.

use std::sync::Arc;
use vstd::prelude::*;
use vstd::slice::slice_subrange;

verus! {

/// The number of bytes in an arena.
pub const ARENA_SIZE_BYTES: usize = 4096;

/// The number of bytes in the key of a node.
pub const KEY_SIZE_BYTES: usize = 32;

#[derive(Debug, Clone, Copy, PartialEq, Eq)]
pub enum ArenaError {
    /// The reservation does not fit in what is left of the arena.
    OOM,
    Undefined,
}

/// A run of bytes in an arena.
pub struct RuntimeSizedByteArray {
    start: usize,
    size: usize,
}

/// A key of `KEY_SIZE_BYTES` bytes and, right behind it, a value.
pub struct RuntimeSizedNode {
    pub key: RuntimeSizedByteArray,
    pub val: RuntimeSizedByteArray,
    /// The low eight bits of the value's length.
    pub size: u8,
}

pub struct Arena {
    data: Vec<u8>,
    current_index: usize,
    memory_usage: usize,
    granted: Ghost<Seq<(nat, nat)>>,
}

/// Whether a reservation of `size` bytes fits when the cursor stands at
/// `cursor`.
pub open spec fn fits_at(cursor: nat, size: nat) -> bool {
    cursor + size <= ARENA_SIZE_BYTES
}

/// Where the cursor stands after a reservation of `size` bytes was asked for
/// at `cursor`, granted or not. It stops at the largest `usize`.
pub open spec fn advanced(cursor: nat, size: nat) -> nat {
    if cursor + size <= usize::MAX {
        cursor + size
    } else {
        usize::MAX as nat
    }
}

/// The number of bytes that a node with a value of `val_size` bytes takes.
pub open spec fn node_size(val_size: nat) -> nat {
    KEY_SIZE_BYTES as nat + val_size
}

/// What is left of the capacity when the cursor stands at `cursor`.
pub open spec fn remaining_at(cursor: nat) -> nat {
    if cursor <= ARENA_SIZE_BYTES {
        (ARENA_SIZE_BYTES - cursor) as nat
    } else {
        0
    }
}

/// Where the cursor of a fresh arena stands after reservations of `sizes`
/// were asked for, one after another.
pub open spec fn cursor_after(sizes: Seq<nat>) -> nat
    decreases sizes.len(),
{
    if sizes.len() == 0 {
        0
    } else {
        advanced(cursor_after(sizes.drop_last()), sizes.last())
    }
}

/// The start and length of the region that the reservation number `i` of
/// `sizes` gets from a fresh arena, or `None` if it is turned down.
pub open spec fn granted(sizes: Seq<nat>, i: int) -> Option<(nat, nat)>
    recommends
        0 <= i < sizes.len(),
{
    if fits_at(cursor_after(sizes.take(i)), sizes[i]) {
        Some((cursor_after(sizes.take(i)), sizes[i]))
    } else {
        None
    }
}

/// The number of bytes in `regions`, each given by its start and length.
pub open spec fn bytes_in(regions: Seq<(nat, nat)>) -> nat
    decreases regions.len(),
{
    if regions.len() == 0 {
        0
    } else {
        bytes_in(regions.drop_last()) + regions.last().1
    }
}

/// What is left in the caller's hands after an arena was given up: nothing
/// where the arena itself was had, and the handle where it was still shared.
pub open spec fn released(unwrapped: Result<Arena, Arc<Arena>>) -> Result<(), Arc<Arena>> {
    match unwrapped {
        Ok(_) => Ok(()),
        Err(shared) => Err(shared),
    }
}

/// The sum of `sizes`.
pub open spec fn total(sizes: Seq<nat>) -> nat
    decreases sizes.len(),
{
    if sizes.len() == 0 {
        0
    } else {
        total(sizes.drop_last()) + sizes.last()
    }
}

/// The cursor never moves back: after more reservations it stands where it
/// stood or further on.
proof fn lemma_cursor_monotone(sizes: Seq<nat>, i: int, j: int)
    requires
        0 <= i <= j <= sizes.len(),
    ensures
        cursor_after(sizes.take(i)) <= cursor_after(sizes.take(j)),
    decreases j - i,
{
    if i < j {
        lemma_cursor_monotone(sizes, i, j - 1);
        assert(sizes.take(j).drop_last() == sizes.take(j - 1));
    }
}

/// Any two regions granted from a fresh arena lie apart, the earlier one
/// wholly before the later one, and both lie within the arena.
pub proof fn lemma_granted_regions_disjoint(sizes: Seq<nat>, i: int, j: int)
    requires
        0 <= i < j < sizes.len(),
        granted(sizes, i) is Some,
        granted(sizes, j) is Some,
    ensures
        ({
            let (first_start, first_len) = granted(sizes, i).unwrap();
            let (second_start, second_len) = granted(sizes, j).unwrap();
            &&& first_len == sizes[i]
            &&& second_len == sizes[j]
            &&& first_start + first_len <= second_start
            &&& second_start + second_len <= ARENA_SIZE_BYTES
        }),
{
    lemma_cursor_monotone(sizes, i + 1, j);
    assert(sizes.take(i + 1).drop_last() == sizes.take(i));
    assert(sizes.take(i + 1).last() == sizes[i]);
}

/// While the sizes asked for sum to no more than the capacity, the cursor
/// stands at their sum.
proof fn lemma_cursor_is_total(sizes: Seq<nat>, i: int)
    requires
        0 <= i <= sizes.len(),
        total(sizes) <= ARENA_SIZE_BYTES,
    ensures
        cursor_after(sizes.take(i)) == total(sizes.take(i)),
        total(sizes.take(i)) <= total(sizes),
    decreases sizes.len() - i,
{
    if i == sizes.len() {
        assert(sizes.take(i) == sizes);
        lemma_cursor_of_small_total(sizes);
    } else {
        lemma_cursor_is_total(sizes, i + 1);
        assert(sizes.take(i + 1).drop_last() == sizes.take(i));
        lemma_cursor_of_small_total(sizes.take(i));
    }
}

proof fn lemma_cursor_of_small_total(sizes: Seq<nat>)
    requires
        total(sizes) <= ARENA_SIZE_BYTES,
    ensures
        cursor_after(sizes) == total(sizes),
    decreases sizes.len(),
{
    if sizes.len() > 0 {
        lemma_cursor_of_small_total(sizes.drop_last());
    }
}

/// Every reservation from a fresh arena is granted as long as the sizes
/// asked for sum to no more than the capacity.
pub proof fn lemma_granted_within_capacity(sizes: Seq<nat>, i: int)
    requires
        0 <= i < sizes.len(),
        total(sizes) <= ARENA_SIZE_BYTES,
    ensures
        granted(sizes, i) == Some((total(sizes.take(i)), sizes[i])),
{
    lemma_cursor_is_total(sizes, i);
    lemma_cursor_is_total(sizes, i + 1);
    assert(sizes.take(i + 1).drop_last() == sizes.take(i));
    assert(sizes.take(i + 1).last() == sizes[i]);
}

/// A reservation larger than what is left does not fit, wherever the cursor
/// stands.
pub proof fn lemma_beyond_remaining_does_not_fit(cursor: nat, size: nat)
    requires
        size > remaining_at(cursor),
    ensures
        !fits_at(cursor, size),
{
}

impl ArenaError {
    /// The error in words.
    pub fn message(&self) -> (text: &'static str)
        ensures
            *self == ArenaError::OOM ==> text@ == "arena out of memory"@,
            *self == ArenaError::Undefined ==> text@ == "undefined error occurred"@,
    {
        match self {
            ArenaError::OOM => "arena out of memory",
            ArenaError::Undefined => "undefined error occurred",
        }
    }
}

impl RuntimeSizedByteArray {
    #[verifier::type_invariant]
    spec fn within_arena(&self) -> bool {
        self.start + self.size <= ARENA_SIZE_BYTES
    }

    /// The place of the region's first byte in the arena.
    pub closed spec fn spec_start(&self) -> nat {
        self.start as nat
    }

    /// The number of bytes in the region.
    pub closed spec fn spec_len(&self) -> nat {
        self.size as nat
    }

    /// The region of `size` bytes that is the `len` bytes from `start` on:
    /// there is one if `len` is `size` and the bytes lie within an arena.
    pub fn new(size: usize, start: usize, len: usize) -> (region: Option<RuntimeSizedByteArray>)
        ensures
            region is Some <==> len == size && start + len <= ARENA_SIZE_BYTES,
            region matches Some(r) ==> r.spec_start() == start && r.spec_len() == size,
    {
        if len == size && start <= ARENA_SIZE_BYTES && len <= ARENA_SIZE_BYTES - start {
            Some(RuntimeSizedByteArray { start, size })
        } else {
            None
        }
    }

    pub fn start(&self) -> (start: usize)
        ensures
            start == self.spec_start(),
            start + self.spec_len() <= ARENA_SIZE_BYTES,
    {
        proof {
            use_type_invariant(self);
        }
        self.start
    }

    pub fn len(&self) -> (len: usize)
        ensures
            len == self.spec_len(),
            self.spec_start() + len <= ARENA_SIZE_BYTES,
    {
        proof {
            use_type_invariant(self);
        }
        self.size
    }

    /// The bytes of the region, as `arena` holds them now.
    pub fn as_slice<'a>(&self, arena: &'a Arena) -> (bytes: &'a [u8])
        requires
            arena.wf(),
        ensures
            bytes@ == arena.bytes().subrange(
                self.spec_start() as int,
                (self.spec_start() + self.spec_len()) as int,
            ),
    {
        proof {
            use_type_invariant(self);
        }
        slice_subrange(arena.data.as_slice(), self.start, self.start + self.size)
    }
}

impl RuntimeSizedNode {
    /// The node with a value of `val_size` bytes that starts at `start` in
    /// the `len` bytes set aside for it: there is one if `len` is enough for
    /// the key and the value and the bytes lie within an arena.
    pub fn new(start: usize, len: usize, val_size: usize) -> (node: Option<RuntimeSizedNode>)
        ensures
            node is Some <==> KEY_SIZE_BYTES + val_size <= len && start + len <= ARENA_SIZE_BYTES,
            node matches Some(n) ==> {
                &&& n.key.spec_start() == start
                &&& n.key.spec_len() == KEY_SIZE_BYTES
                &&& n.val.spec_start() == start + KEY_SIZE_BYTES
                &&& n.val.spec_len() == val_size
                &&& n.size == val_size % 256
            },
    {
        if len < KEY_SIZE_BYTES || len - KEY_SIZE_BYTES < val_size {
            return None;
        }
        if start > ARENA_SIZE_BYTES || len > ARENA_SIZE_BYTES - start {
            return None;
        }
        let key = RuntimeSizedByteArray::new(KEY_SIZE_BYTES, start, KEY_SIZE_BYTES)?;
        let val = RuntimeSizedByteArray::new(val_size, start + KEY_SIZE_BYTES, val_size)?;
        Some(RuntimeSizedNode { key, val, size: (val_size % 256) as u8 })
    }
}

impl Arena {
    /// Whether the arena is in order: its buffer has `ARENA_SIZE_BYTES`
    /// bytes; every region granted so far lies within the buffer and before
    /// the cursor, and wholly before every region granted after it; and the
    /// bytes counted as granted are the bytes of these regions. `new` makes
    /// it so and every method keeps it so.
    pub closed spec fn wf(&self) -> bool {
        &&& self.data@.len() == ARENA_SIZE_BYTES
        &&& self.memory_usage == bytes_in(self.granted@)
        &&& self.memory_usage <= self.current_index
        &&& self.memory_usage <= ARENA_SIZE_BYTES
        &&& forall|i: int|
            0 <= i < self.granted@.len() ==> {
                let (start, len) = #[trigger] self.granted@[i];
                start + len <= self.current_index && start + len <= ARENA_SIZE_BYTES
            }
        &&& forall|i: int, j: int|
            0 <= i < j < self.granted@.len() ==> {
                let (first_start, first_len) = #[trigger] self.granted@[i];
                let (second_start, second_len) = #[trigger] self.granted@[j];
                first_start + first_len <= second_start
            }
    }

    /// The regions granted so far, each by its start and length, in the
    /// order in which they were granted.
    pub closed spec fn regions(&self) -> Seq<(nat, nat)> {
        self.granted@
    }

    /// In every state of the arena, any two regions granted so far lie
    /// apart, the earlier one wholly before the later one, and both lie
    /// within the arena; and the bytes counted as used are theirs.
    pub proof fn lemma_regions_apart(&self, i: int, j: int)
        requires
            self.wf(),
            0 <= i < j < self.regions().len(),
        ensures
            ({
                let (first_start, first_len) = self.regions()[i];
                let (second_start, second_len) = self.regions()[j];
                &&& first_start + first_len <= second_start
                &&& second_start + second_len <= ARENA_SIZE_BYTES
                &&& second_start + second_len <= self.cursor()
            }),
            self.usage() == bytes_in(self.regions()),
    {
    }

    /// Where the cursor stands: the sum of all sizes asked for so far,
    /// granted or not, as far as a `usize` holds it.
    pub closed spec fn cursor(&self) -> nat {
        self.current_index as nat
    }

    /// The number of bytes granted so far.
    pub closed spec fn usage(&self) -> nat {
        self.memory_usage as nat
    }

    /// The bytes of the buffer.
    pub closed spec fn bytes(&self) -> Seq<u8> {
        self.data@
    }

    /// A fresh arena: nothing reserved, every byte zero.
    pub fn new() -> (arena: Arena)
        ensures
            arena.wf(),
            arena.cursor() == 0,
            arena.usage() == 0,
            arena.regions() == Seq::<(nat, nat)>::empty(),
            arena.bytes() == Seq::new(ARENA_SIZE_BYTES as nat, |i: int| 0u8),
    {
        let mut data: Vec<u8> = Vec::new();
        data.resize(ARENA_SIZE_BYTES, 0u8);
        assert(data@ =~= Seq::new(ARENA_SIZE_BYTES as nat, |i: int| 0u8));
        Arena { data, current_index: 0, memory_usage: 0, granted: Ghost(Seq::empty()) }
    }

    pub fn current_index(&self) -> (index: usize)
        ensures
            index == self.cursor(),
    {
        self.current_index
    }

    pub fn memory_usage(&self) -> (usage: usize)
        ensures
            usage == self.usage(),
    {
        self.memory_usage
    }

    /// Moves the cursor by `size` and says where it stood, if the bytes from
    /// there on fit in the arena.
    fn reserve(&mut self, size: usize) -> (start: Option<usize>)
        requires
            old(self).wf(),
        ensures
            final(self).wf(),
            final(self).cursor() == advanced(old(self).cursor(), size as nat),
            final(self).bytes() == old(self).bytes(),
            fits_at(old(self).cursor(), size as nat) ==> {
                &&& start == Some(old(self).current_index)
                &&& final(self).usage() == old(self).usage() + size
                &&& final(self).regions() == old(self).regions().push(
                    (old(self).cursor(), size as nat),
                )
            },
            !fits_at(old(self).cursor(), size as nat) ==> {
                &&& start is None
                &&& final(self).usage() == old(self).usage()
                &&& final(self).regions() == old(self).regions()
            },
    {
        let start = self.current_index;
        self.current_index = start.saturating_add(size);
        if start > ARENA_SIZE_BYTES || size > ARENA_SIZE_BYTES - start {
            return None;
        }
        self.memory_usage = self.memory_usage + size;
        proof {
            let before = self.granted@;
            self.granted = Ghost(before.push((start as nat, size as nat)));
            assert(self.granted@.drop_last() == before);
        }
        Some(start)
    }

    /// Reserves a node: `KEY_SIZE_BYTES` bytes for its key and, right behind
    /// them, `val_size` bytes for its value.
    ///
    /// The node is granted if and only if all of it fits between the cursor
    /// and the end of the arena; it then starts where the cursor stood. The
    /// cursor moves past what was asked for in either case, so once a
    /// reservation has been turned down no larger one is granted later.
    pub fn create_node(&mut self, val_size: usize) -> (node: Result<RuntimeSizedNode, ArenaError>)
        requires
            old(self).wf(),
        ensures
            final(self).wf(),
            final(self).cursor() == advanced(old(self).cursor(), node_size(val_size as nat)),
            final(self).bytes() == old(self).bytes(),
            fits_at(old(self).cursor(), node_size(val_size as nat)) ==> {
                &&& node matches Ok(n)
                &&& n.key.spec_start() == old(self).cursor()
                &&& n.key.spec_len() == KEY_SIZE_BYTES
                &&& n.val.spec_start() == old(self).cursor() + KEY_SIZE_BYTES
                &&& n.val.spec_len() == val_size
                &&& n.size == val_size % 256
                &&& final(self).usage() == old(self).usage() + KEY_SIZE_BYTES + val_size
                &&& final(self).regions() == old(self).regions().push(
                    (old(self).cursor(), node_size(val_size as nat)),
                )
            },
            !fits_at(old(self).cursor(), node_size(val_size as nat)) ==> {
                &&& node == Err::<RuntimeSizedNode, ArenaError>(ArenaError::OOM)
                &&& final(self).usage() == old(self).usage()
                &&& final(self).regions() == old(self).regions()
            },
    {
        let total_size = match val_size.checked_add(KEY_SIZE_BYTES) {
            Some(total_size) => total_size,
            None => {
                let _ = self.reserve(usize::MAX);
                return Err(ArenaError::OOM);
            },
        };
        let start = match self.reserve(total_size) {
            Some(start) => start,
            None => {
                return Err(ArenaError::OOM);
            },
        };
        match RuntimeSizedNode::new(start, total_size, val_size) {
            Some(node) => Ok(node),
            None => Err(ArenaError::Undefined),
        }
    }

    /// Reserves `size` bytes.
    ///
    /// The region is granted if and only if all of it fits between the
    /// cursor and the end of the arena; it then starts where the cursor
    /// stood and has exactly `size` bytes. The cursor moves past what was
    /// asked for in either case.
    pub fn allocate_slice(&mut self, size: usize) -> (region: Result<
        RuntimeSizedByteArray,
        ArenaError,
    >)
        requires
            old(self).wf(),
        ensures
            final(self).wf(),
            final(self).cursor() == advanced(old(self).cursor(), size as nat),
            final(self).bytes() == old(self).bytes(),
            fits_at(old(self).cursor(), size as nat) ==> {
                &&& region matches Ok(r)
                &&& r.spec_start() == old(self).cursor()
                &&& r.spec_len() == size
                &&& final(self).usage() == old(self).usage() + size
                &&& final(self).regions() == old(self).regions().push(
                    (old(self).cursor(), size as nat),
                )
            },
            !fits_at(old(self).cursor(), size as nat) ==> {
                &&& region == Err::<RuntimeSizedByteArray, ArenaError>(ArenaError::OOM)
                &&& final(self).usage() == old(self).usage()
                &&& final(self).regions() == old(self).regions()
            },
    {
        let start = match self.reserve(size) {
            Some(start) => start,
            None => {
                return Err(ArenaError::OOM);
            },
        };
        match RuntimeSizedByteArray::new(size, start, size) {
            Some(region) => Ok(region),
            None => Err(ArenaError::Undefined),
        }
    }

    /// What is left of the capacity: the bytes between the cursor and the
    /// end of the arena, and nothing once the cursor is past the end.
    pub fn remaining_capacity(&self) -> (left: usize)
        ensures
            left == remaining_at(self.cursor()),
    {
        ARENA_SIZE_BYTES.saturating_sub(self.current_index)
    }

    /// Copies `src` over the bytes of `region`. Every other byte of the
    /// arena stays as it is.
    pub fn write(&mut self, region: &RuntimeSizedByteArray, src: &[u8])
        requires
            old(self).wf(),
            src@.len() == region.spec_len(),
        ensures
            final(self).wf(),
            final(self).cursor() == old(self).cursor(),
            final(self).usage() == old(self).usage(),
            final(self).regions() == old(self).regions(),
            final(self).bytes() == old(self).bytes().subrange(0, region.spec_start() as int) + src@
                + old(self).bytes().subrange(
                (region.spec_start() + region.spec_len()) as int,
                ARENA_SIZE_BYTES as int,
            ),
    {
        proof {
            use_type_invariant(region);
        }
        let start = region.start;
        let mut i: usize = 0;
        while i < src.len()
            invariant
                i <= src.len(),
                src@.len() == region.size,
                start == region.start,
                start + region.size <= ARENA_SIZE_BYTES,
                old(self).wf(),
                self.data@.len() == ARENA_SIZE_BYTES,
                self.current_index == old(self).current_index,
                self.memory_usage == old(self).memory_usage,
                self.granted == old(self).granted,
                old(self).data@.len() == ARENA_SIZE_BYTES,
                forall|k: int|
                    0 <= k < ARENA_SIZE_BYTES ==> #[trigger] self.data@[k] == (if start <= k < start
                        + i {
                        src@[k - start]
                    } else {
                        old(self).data@[k]
                    }),
            decreases src.len() - i,
        {
            self.data.set(start + i, src[i]);
            i += 1;
        }
        proof {
            assert(self.data@ =~= old(self).data@.subrange(0, start as int) + src@ + old(
                self,
            ).data@.subrange(start + region.size, ARENA_SIZE_BYTES as int));
        }
    }

    /// Sets every byte of the arena to zero.
    pub fn zeroize(&mut self)
        requires
            old(self).wf(),
        ensures
            final(self).wf(),
            final(self).cursor() == old(self).cursor(),
            final(self).usage() == old(self).usage(),
            final(self).regions() == old(self).regions(),
            final(self).bytes() == Seq::new(ARENA_SIZE_BYTES as nat, |i: int| 0u8),
    {
        let mut i: usize = 0;
        while i < ARENA_SIZE_BYTES
            invariant
                i <= ARENA_SIZE_BYTES,
                old(self).wf(),
                self.data@.len() == ARENA_SIZE_BYTES,
                self.current_index == old(self).current_index,
                self.memory_usage == old(self).memory_usage,
                self.granted == old(self).granted,
                forall|k: int| 0 <= k < i ==> self.data@[k] == 0,
            decreases ARENA_SIZE_BYTES - i,
        {
            self.data.set(i, 0u8);
            i += 1;
        }
        assert(self.data@ =~= Seq::new(ARENA_SIZE_BYTES as nat, |i: int| 0u8));
    }

    /// Gives up the arena if `arena` is the last handle to it: its bytes are
    /// set to zero and its memory is released. While another handle is
    /// alive nothing happens, and the handle comes back as it was.
    ///
    /// Which of the two it is, the count of handles decides.
    pub fn destroy(arena: Arc<Arena>) -> (kept: Result<(), Arc<Arena>>)
        requires
            arena.wf(),
        ensures
            kept matches Err(shared) ==> shared == arena,
    {
        Self::release(sole_owner(arena))
    }

    /// What `destroy` does once it is known whether the handle was the last
    /// one. For the arena itself, which only the last handle yields, the
    /// bytes are set to zero and the arena is released. For a handle that
    /// is still shared, the handle comes back as it was.
    pub fn release(unwrapped: Result<Arena, Arc<Arena>>) -> (kept: Result<(), Arc<Arena>>)
        requires
            unwrapped matches Ok(owned) ==> owned.wf(),
        ensures
            kept == released(unwrapped),
    {
        match unwrapped {
            Ok(mut arena) => {
                arena.zeroize();
                Ok(())
            },
            Err(arc) => Err(arc),
        }
    }
}

/// `Arc::try_unwrap`: the value itself if `arena` is the only handle to it,
/// and otherwise the handle as it came. Which of the two, the count of
/// handles decides, and the contract does not say.
#[verifier::external_body]
fn sole_owner(arena: Arc<Arena>) -> (unwrapped: Result<Arena, Arc<Arena>>)
    ensures
        match unwrapped {
            Ok(owned) => owned == *arena,
            Err(shared) => shared == arena,
        },
{
    Arc::try_unwrap(arena)
}

} // verus!
