//! A bump arena of bytes: chunks of one fixed capacity, handles in place of references.

use vstd::prelude::*;

use vstd::arithmetic::power2::is_pow2;
use vstd::string::StringSliceAdditionalSpecFns;
use vstd::utf8::{
    decode_utf8, encode_utf8, encode_utf8_decode_utf8, encode_utf8_valid_utf8, valid_utf8,
};

use crate::align::{
    align_up, lemma_align_up, lemma_align_up_of_aligned, lemma_mask_rounds_up,
    lemma_power_of_two_is_positive, lemma_zero_is_aligned,
};
use crate::boxed::ArenaBox;

verus! {

/// Size in bytes of the chunks of an arena that is made without naming one.
pub const DEFAULT_CHUNK_SIZE: usize = 8192;

/// A range of bytes inside an arena: `len` bytes from `offset` of chunk number `chunk`.
pub struct Region {
    pub chunk: int,
    pub offset: int,
    pub len: int,
}

impl Region {
    /// The range of no bytes that stands for every value of size zero.
    pub open spec fn empty() -> Region {
        Region { chunk: 0, offset: 0, len: 0 }
    }

    /// Whether the two ranges share no byte.
    pub open spec fn disjoint(self, other: Region) -> bool {
        self.chunk != other.chunk || self.offset + self.len <= other.offset || other.offset
            + other.len <= self.offset
    }
}

/// Handle of one allocation: where in the arena that made it its bytes lie. It stays valid
/// for as long as that arena lives, and copies of it are equal. Handles are ordered by
/// chunk, then by offset, then by length.
#[derive(Copy, Clone, Debug, PartialEq, Eq, PartialOrd, Ord, Hash, Structural)]
pub struct ArenaRef {
    chunk: usize,
    offset: usize,
    len: usize,
}

impl View for ArenaRef {
    type V = Region;

    closed spec fn view(&self) -> Region {
        Region { chunk: self.chunk as int, offset: self.offset as int, len: self.len as int }
    }
}

impl ArenaRef {
    /// The handle of every value of size zero. It refers to no storage.
    #[must_use]
    pub fn dangling() -> (reference: ArenaRef)
        ensures
            reference@ == Region::empty(),
    {
        ArenaRef { chunk: 0, offset: 0, len: 0 }
    }

    /// Number of the chunk that holds the bytes.
    #[must_use]
    pub fn chunk(self) -> (chunk: usize)
        ensures
            chunk == self@.chunk,
    {
        self.chunk
    }

    /// Offset of the first byte in its chunk.
    #[must_use]
    pub fn offset(self) -> (offset: usize)
        ensures
            offset == self@.offset,
    {
        self.offset
    }

    /// Number of bytes.
    #[must_use]
    pub fn len(self) -> (len: usize)
        ensures
            len == self@.len,
    {
        self.len
    }

    /// Whether the handle stands for no bytes.
    #[must_use]
    pub fn is_empty(self) -> (empty: bool)
        ensures
            empty <==> self@.len == 0,
    {
        self.len == 0
    }
}

/// Mathematical model of a [`Chunk`]: its bytes, and how many of them are given out.
pub struct ChunkView {
    pub bytes: Seq<u8>,
    pub cursor: int,
}

impl ChunkView {
    /// A chunk of `capacity` zero bytes of which none is given out.
    pub open spec fn fresh(capacity: int) -> ChunkView {
        ChunkView { bytes: Seq::new(capacity as nat, |i: int| 0u8), cursor: 0 }
    }

    /// How many bytes the chunk holds.
    pub open spec fn capacity(self) -> int {
        self.bytes.len() as int
    }

    /// The cursor lies inside the chunk.
    pub open spec fn wf(self) -> bool {
        0 <= self.cursor <= self.capacity()
    }

    /// Whether `size` bytes aligned to `align` fit behind the cursor. A request whose
    /// rounding does not fit the machine word fits no chunk.
    pub open spec fn fits(self, size: int, align: int) -> bool {
        self.cursor + align - 1 <= usize::MAX && align_up(self.cursor, align) + size
            <= self.capacity()
    }

    /// The chunk with the cursor moved to `cursor`.
    pub open spec fn bumped(self, cursor: int) -> ChunkView {
        ChunkView { bytes: self.bytes, cursor }
    }

    /// The chunk with `data` written from `offset` on.
    pub open spec fn stored(self, offset: int, data: Seq<u8>) -> ChunkView {
        ChunkView {
            bytes: self.bytes.subrange(0, offset) + data + self.bytes.subrange(
                offset + data.len(),
                self.bytes.len() as int,
            ),
            cursor: self.cursor,
        }
    }
}

/// One block of storage of fixed capacity, given out from the front.
pub struct Chunk {
    storage: Vec<u8>,
    capacity: usize,
    cursor: usize,
}

impl View for Chunk {
    type V = ChunkView;

    closed spec fn view(&self) -> ChunkView {
        ChunkView { bytes: self.storage@, cursor: self.cursor as int }
    }
}

impl Chunk {
    /// The storage has the chunk's capacity, and the cursor lies inside it.
    pub closed spec fn wf(&self) -> bool {
        &&& self.storage@.len() == self.capacity
        &&& self.cursor <= self.capacity
    }

    /// In a well-formed chunk the model is well formed too.
    pub proof fn lemma_wf(&self)
        requires
            self.wf(),
        ensures
            self@.wf(),
    {
    }

    /// A chunk of `capacity` bytes, none of them given out.
    pub fn new(capacity: usize) -> (chunk: Chunk)
        ensures
            chunk.wf(),
            chunk@ == ChunkView::fresh(capacity as int),
    {
        let storage = vec![0u8; capacity];
        assert(storage@ =~= ChunkView::fresh(capacity as int).bytes);
        Chunk { storage, capacity, cursor: 0 }
    }

    /// Gives out `size` bytes at the next offset that is a multiple of `align`, a power of
    /// two, and returns that offset; or returns `None`, and changes nothing, where they do
    /// not fit.
    pub fn try_alloc(&mut self, size: usize, align: usize) -> (offset: Option<usize>)
        requires
            old(self).wf(),
            is_pow2(align as int),
        ensures
            final(self).wf(),
            offset is Some <==> old(self)@.fits(size as int, align as int),
            offset is Some ==> offset->0 == align_up(old(self)@.cursor, align as int) && final(self)@
                == old(self)@.bumped(offset->0 + size),
            offset is None ==> final(self)@ == old(self)@,
    {
        proof {
            lemma_power_of_two_is_positive(align as int);
        }
        let mask = align - 1;
        let aligned = match self.cursor.checked_add(mask) {
            Some(sum) => sum & !mask,
            None => {
                return None;
            },
        };
        proof {
            lemma_mask_rounds_up(self.cursor, align);
        }
        let end = match aligned.checked_add(size) {
            Some(end) => end,
            None => {
                return None;
            },
        };
        if end > self.capacity {
            return None;
        }
        self.cursor = end;
        Some(aligned)
    }

    /// Writes `data` from `offset` on, inside what has been given out.
    fn store(&mut self, offset: usize, data: &[u8])
        requires
            old(self).wf(),
            offset + data@.len() <= old(self)@.cursor,
        ensures
            final(self).wf(),
            final(self)@ == old(self)@.stored(offset as int, data@),
    {
        let mut i: usize = 0;
        while i < data.len()
            invariant
                self.wf(),
                i <= data@.len(),
                offset + data@.len() <= self.cursor,
                self.cursor == old(self).cursor,
                self.capacity == old(self).capacity,
                self.storage@.len() == old(self).storage@.len(),
                forall|j: int|
                    0 <= j < self.storage@.len() ==> #[trigger] self.storage@[j] == if offset <= j
                        < offset + i {
                        data@[j - offset]
                    } else {
                        old(self).storage@[j]
                    },
            decreases data@.len() - i,
        {
            self.storage[offset + i] = data[i];
            i += 1;
        }
        assert(self@.bytes =~= old(self)@.stored(offset as int, data@).bytes);
    }

    /// The `len` bytes from `offset` on.
    fn bytes(&self, offset: usize, len: usize) -> (bytes: &[u8])
        requires
            self.wf(),
            offset + len <= self@.capacity(),
        ensures
            bytes@ == self@.bytes.subrange(offset as int, offset + len),
    {
        vstd::slice::slice_subrange(self.storage.as_slice(), offset, offset + len)
    }
}

/// Mathematical model of an [`Arena`]: its chunks in the order in which they were made,
/// their common capacity, and the ranges it has given out, oldest first.
pub struct ArenaView {
    pub chunks: Seq<ChunkView>,
    pub chunk_size: int,
    pub issued: Seq<Region>,
}

impl ArenaView {
    /// The arena that [`Arena::with_chunk_size`] makes: one fresh chunk, nothing given out.
    pub open spec fn fresh(chunk_size: int) -> ArenaView {
        ArenaView {
            chunks: seq![ChunkView::fresh(chunk_size)],
            chunk_size,
            issued: Seq::empty(),
        }
    }

    /// The chunk that allocations are tried in first: the one made last.
    pub open spec fn current(self) -> ChunkView {
        self.chunks.last()
    }

    /// Whether `region` lies inside what one of the chunks has given out.
    pub open spec fn live(self, region: Region) -> bool {
        &&& 0 <= region.chunk < self.chunks.len()
        &&& 0 <= region.offset
        &&& 0 <= region.len
        &&& region.offset + region.len <= self.chunks[region.chunk].cursor
    }

    /// The bytes that `region` holds.
    pub open spec fn content(self, region: Region) -> Seq<u8> {
        self.chunks[region.chunk].bytes.subrange(region.offset, region.offset + region.len)
    }

    /// There is at least one chunk, every chunk has the configured capacity, and the
    /// ranges given out lie inside the used parts of the chunks and share no byte.
    pub open spec fn wf(self) -> bool {
        &&& self.chunk_size > 0
        &&& self.chunks.len() >= 1
        &&& forall|i: int|
            0 <= i < self.chunks.len() ==> (#[trigger] self.chunks[i]).wf() && self.chunks[i].capacity()
                == self.chunk_size
        &&& forall|i: int| 0 <= i < self.issued.len() ==> self.live(#[trigger] self.issued[i])
        &&& forall|i: int, j: int|
            0 <= i < j < self.issued.len() ==> (#[trigger] self.issued[i]).disjoint(
                #[trigger] self.issued[j],
            )
    }

    /// Where a request for `size` bytes aligned to `align` is placed: behind the cursor of
    /// the current chunk where it fits there, and else at the start of a new chunk.
    pub open spec fn placement(self, size: int, align: int) -> Region {
        if self.current().fits(size, align) {
            Region {
                chunk: self.chunks.len() - 1,
                offset: align_up(self.current().cursor, align),
                len: size,
            }
        } else {
            Region { chunk: self.chunks.len() as int, offset: 0, len: size }
        }
    }

    /// The arena after it has given out `size` bytes aligned to `align`. A new chunk is
    /// added only where the request does not fit the current one, and no byte changes.
    pub open spec fn reserved(self, size: int, align: int) -> ArenaView {
        let region = self.placement(size, align);
        let chunks = if self.current().fits(size, align) {
            self.chunks
        } else {
            self.chunks.push(ChunkView::fresh(self.chunk_size))
        };
        ArenaView {
            chunks: chunks.update(region.chunk, chunks[region.chunk].bumped(region.offset + size)),
            chunk_size: self.chunk_size,
            issued: self.issued.push(region),
        }
    }

    /// The arena after `data` has been written to the start of `region`.
    pub open spec fn stored(self, region: Region, data: Seq<u8>) -> ArenaView {
        ArenaView {
            chunks: self.chunks.update(
                region.chunk,
                self.chunks[region.chunk].stored(region.offset, data),
            ),
            chunk_size: self.chunk_size,
            issued: self.issued,
        }
    }
}

impl ArenaView {
    /// Where a value with the bytes `value` is placed: nowhere, if it has none.
    pub open spec fn place_of_value(self, value: Seq<u8>, align: int) -> Region {
        if value.len() == 0 {
            Region::empty()
        } else {
            self.placement(value.len() as int, align)
        }
    }

    /// The arena after a value with the bytes `value` has been stored: unchanged, if it
    /// has none.
    pub open spec fn with_value(self, value: Seq<u8>, align: int) -> ArenaView {
        if value.len() == 0 {
            self
        } else {
            self.reserved(value.len() as int, align).stored(
                self.placement(value.len() as int, align),
                value,
            )
        }
    }
}

/// Giving out a range keeps the arena well formed. The new range is live, starts at a
/// multiple of the alignment and shares no byte with any range that was live before; those
/// stay live and keep their bytes. The arena never shrinks: at most one chunk is added,
/// and no cursor moves back.
pub proof fn lemma_reserved(arena: ArenaView, size: int, align: int)
    requires
        arena.wf(),
        0 <= size <= arena.chunk_size,
        0 < align,
    ensures
        arena.reserved(size, align).wf(),
        arena.chunks.len() <= arena.reserved(size, align).chunks.len() <= arena.chunks.len() + 1,
        forall|i: int|
            0 <= i < arena.chunks.len() ==> (#[trigger] arena.chunks[i]).cursor <= arena.reserved(
                size,
                align,
            ).chunks[i].cursor,
        arena.reserved(size, align).live(arena.placement(size, align)),
        arena.placement(size, align).offset % align == 0,
        forall|earlier: Region| #[trigger]
            arena.live(earlier) ==> {
                &&& earlier.disjoint(arena.placement(size, align))
                &&& arena.reserved(size, align).live(earlier)
                &&& arena.reserved(size, align).content(earlier) == arena.content(earlier)
            },
{
    lemma_align_up(arena.current().cursor, align);
    lemma_zero_is_aligned(align);
}

/// Writing into a live range keeps the arena well formed. The range then holds what was
/// written, and every range that shares no byte with it keeps its bytes.
pub proof fn lemma_stored(arena: ArenaView, region: Region, data: Seq<u8>)
    requires
        arena.wf(),
        arena.live(region),
        data.len() == region.len,
    ensures
        arena.stored(region, data).wf(),
        arena.stored(region, data).content(region) == data,
        forall|other: Region| #[trigger]
            arena.live(other) ==> arena.stored(region, data).live(other) && (other.disjoint(region)
                ==> arena.stored(region, data).content(other) == arena.content(other)),
{
}

/// Storing a value keeps the arena well formed. The value can be read back from where it
/// was placed, which is a multiple of the alignment, and every range that was live before
/// stays live and keeps its bytes.
pub proof fn lemma_with_value(arena: ArenaView, value: Seq<u8>, align: int)
    requires
        arena.wf(),
        value.len() <= arena.chunk_size,
        0 < align,
    ensures
        arena.with_value(value, align).wf(),
        arena.with_value(value, align).live(arena.place_of_value(value, align)),
        arena.with_value(value, align).content(arena.place_of_value(value, align)) == value,
        arena.place_of_value(value, align).offset % align == 0,
        forall|earlier: Region| #[trigger]
            arena.live(earlier) ==> {
                &&& arena.with_value(value, align).live(earlier)
                &&& arena.with_value(value, align).content(earlier) == arena.content(earlier)
            },
{
    if value.len() > 0 {
        lemma_reserved(arena, value.len() as int, align);
        assert forall|earlier: Region| #[trigger] arena.live(earlier) implies {
            &&& arena.with_value(value, align).live(earlier)
            &&& arena.with_value(value, align).content(earlier) == arena.content(earlier)
        } by {}
    }
}

/// A value of no bytes changes nothing, whatever the arena holds, and always gets the same
/// handle: the empty range.
pub proof fn lemma_empty_value(arena: ArenaView, align: int)
    ensures
        arena.with_value(Seq::<u8>::empty(), align) == arena,
        arena.place_of_value(Seq::<u8>::empty(), align) == Region::empty(),
{
}

/// A value of exactly one chunk's size can be stored: it fills the current chunk where
/// that is still unused, and a new chunk of its own where it is not.
pub proof fn lemma_value_of_chunk_size(arena: ArenaView, value: Seq<u8>, align: int)
    requires
        arena.wf(),
        value.len() == arena.chunk_size,
        0 < align <= usize::MAX,
    ensures
        arena.with_value(value, align).wf(),
        arena.place_of_value(value, align).offset == 0,
        arena.place_of_value(value, align).len == arena.chunk_size,
        arena.place_of_value(value, align).chunk == if arena.current().cursor == 0 {
            arena.chunks.len() - 1
        } else {
            arena.chunks.len() as int
        },
        arena.with_value(value, align).content(arena.place_of_value(value, align)) == value,
{
    lemma_align_up(arena.current().cursor, align);
    if arena.current().cursor == 0 {
        lemma_align_up_of_aligned(0, align);
    }
}

/// No two ranges that an arena has given out share a byte.
pub proof fn lemma_issued_disjoint(arena: ArenaView, i: int, j: int)
    requires
        arena.wf(),
        0 <= i < arena.issued.len(),
        0 <= j < arena.issued.len(),
        i != j,
    ensures
        arena.issued[i].disjoint(arena.issued[j]),
{
}

/// A string that was stored can be read back: the bytes that [`Arena::alloc_str`] writes
/// for `text` are valid UTF-8 and decode to `text`.
pub proof fn lemma_text_reads_back(text: Seq<char>)
    ensures
        valid_utf8(encode_utf8(text)),
        decode_utf8(encode_utf8(text)) == text,
{
    encode_utf8_valid_utf8(text);
    encode_utf8_decode_utf8(text);
}

/// `std::str::from_utf8`: the string slice over `bytes` where they are valid UTF-8, which
/// then has exactly these bytes, and nothing where they are not.
#[verifier::external_body]
fn text_of(bytes: &[u8]) -> (text: Option<&str>)
    ensures
        text is Some <==> valid_utf8(bytes@),
        text is Some ==> text->0.spec_bytes() == bytes@,
{
    match std::str::from_utf8(bytes) {
        Ok(text) => Some(text),
        Err(_) => None,
    }
}

/// A bump allocator over chunks of one fixed capacity. It gives out ranges of bytes and
/// never takes one back; what it has given out keeps its place and its content.
pub struct Arena {
    chunks: Vec<Chunk>,
    chunk_size: usize,
    issued: Ghost<Seq<Region>>,
}

impl View for Arena {
    type V = ArenaView;

    closed spec fn view(&self) -> ArenaView {
        ArenaView {
            chunks: self.chunks@.map_values(|chunk: Chunk| chunk@),
            chunk_size: self.chunk_size as int,
            issued: self.issued@,
        }
    }
}

impl Arena {
    /// Every chunk is well formed, and so is the model.
    pub closed spec fn wf(&self) -> bool {
        &&& self@.wf()
        &&& forall|i: int| 0 <= i < self.chunks@.len() ==> (#[trigger] self.chunks@[i]).wf()
    }

    /// In a well-formed arena the model is well formed too.
    pub proof fn lemma_wf(&self)
        requires
            self.wf(),
        ensures
            self@.wf(),
    {
    }

    /// An arena with chunks of [`DEFAULT_CHUNK_SIZE`] bytes.
    #[must_use]
    pub fn new() -> (arena: Arena)
        ensures
            arena.wf(),
            arena@ == ArenaView::fresh(DEFAULT_CHUNK_SIZE as int),
    {
        Arena::with_chunk_size(DEFAULT_CHUNK_SIZE)
    }

    /// An arena with chunks of `chunk_size` bytes, which must not be zero.
    #[must_use]
    pub fn with_chunk_size(chunk_size: usize) -> (arena: Arena)
        requires
            chunk_size > 0,
        ensures
            arena.wf(),
            arena@ == ArenaView::fresh(chunk_size as int),
    {
        let mut chunks: Vec<Chunk> = Vec::new();
        chunks.push(Chunk::new(chunk_size));
        let arena = Arena { chunks, chunk_size, issued: Ghost(Seq::empty()) };
        assert(arena@.chunks =~= seq![ChunkView::fresh(chunk_size as int)]);
        arena
    }

    /// The capacity of every chunk.
    #[must_use]
    pub fn chunk_size(&self) -> (chunk_size: usize)
        ensures
            chunk_size == self@.chunk_size,
    {
        self.chunk_size
    }

    /// How many chunks the arena holds.
    #[must_use]
    pub fn chunk_count(&self) -> (count: usize)
        ensures
            count == self@.chunks.len(),
    {
        self.chunks.len()
    }

    /// Stores one value, given as its bytes, at an offset that is a multiple of `align`,
    /// a power of two, and returns its handle. A value of no bytes gets the handle
    /// [`ArenaRef::dangling`] and leaves the arena as it is. The value must not be larger
    /// than a chunk.
    pub fn alloc_value(&mut self, value: &[u8], align: usize) -> (reference: ArenaRef)
        requires
            old(self).wf(),
            value@.len() <= old(self)@.chunk_size,
            is_pow2(align as int),
        ensures
            final(self).wf(),
            final(self)@ == old(self)@.with_value(value@, align as int),
            reference@ == old(self)@.place_of_value(value@, align as int),
            final(self)@.live(reference@),
            final(self)@.content(reference@) == value@,
            reference@.offset % (align as int) == 0,
            forall|earlier: Region| #[trigger]
                old(self)@.live(earlier) ==> final(self)@.live(earlier) && final(self)@.content(
                    earlier,
                ) == old(self)@.content(earlier),
    {
        proof {
            lemma_power_of_two_is_positive(align as int);
            lemma_with_value(self@, value@, align as int);
        }
        if value.len() == 0 {
            return ArenaRef::dangling();
        }
        let reference = self.alloc_raw(value.len(), align);
        self.chunks[reference.chunk].store(reference.offset, value);
        assert(self@.chunks =~= old(self)@.with_value(value@, align as int).chunks);
        reference
    }

    /// Stores one value as [`Arena::alloc_value`] does and returns its handle boxed.
    #[must_use]
    pub fn alloc_box(&mut self, value: &[u8], align: usize) -> (boxed: ArenaBox)
        requires
            old(self).wf(),
            value@.len() <= old(self)@.chunk_size,
            is_pow2(align as int),
        ensures
            final(self).wf(),
            final(self)@ == old(self)@.with_value(value@, align as int),
            boxed@ == old(self)@.place_of_value(value@, align as int),
            final(self)@.live(boxed@),
            final(self)@.content(boxed@) == value@,
            boxed@.offset % (align as int) == 0,
            forall|earlier: Region| #[trigger]
                old(self)@.live(earlier) ==> final(self)@.live(earlier) && final(self)@.content(
                    earlier,
                ) == old(self)@.content(earlier),
    {
        ArenaBox::new(self.alloc_value(value, align))
    }

    /// Stores one value as [`Arena::alloc_value`] does, where it is not larger than a
    /// chunk. A value that is larger gets no handle, whatever the arena holds, and leaves
    /// the arena as it is.
    pub fn try_alloc_value(&mut self, value: &[u8], align: usize) -> (reference: Option<
        ArenaRef,
    >)
        requires
            old(self).wf(),
            is_pow2(align as int),
        ensures
            final(self).wf(),
            reference is Some <==> value@.len() <= old(self)@.chunk_size,
            reference is None ==> final(self)@ == old(self)@,
            reference is Some ==> {
                &&& final(self)@ == old(self)@.with_value(value@, align as int)
                &&& reference->0@ == old(self)@.place_of_value(value@, align as int)
                &&& final(self)@.live(reference->0@)
                &&& final(self)@.content(reference->0@) == value@
                &&& reference->0@.offset % (align as int) == 0
            },
            forall|earlier: Region| #[trigger]
                old(self)@.live(earlier) ==> final(self)@.live(earlier) && final(self)@.content(
                    earlier,
                ) == old(self)@.content(earlier),
    {
        if value.len() > self.chunk_size {
            return None;
        }
        Some(self.alloc_value(value, align))
    }

    /// Stores the UTF-8 bytes of `s` and returns their handle. The empty string gets the
    /// handle [`ArenaRef::dangling`] and leaves the arena as it is. The text must not be
    /// larger than a chunk.
    pub fn alloc_str(&mut self, s: &str) -> (reference: ArenaRef)
        requires
            old(self).wf(),
            s.spec_bytes().len() <= old(self)@.chunk_size,
        ensures
            final(self).wf(),
            final(self)@ == old(self)@.with_value(s.spec_bytes(), 1),
            reference@ == old(self)@.place_of_value(s.spec_bytes(), 1),
            final(self)@.live(reference@),
            final(self)@.content(reference@) == s.spec_bytes(),
            valid_utf8(final(self)@.content(reference@)),
            decode_utf8(final(self)@.content(reference@)) == s@,
            forall|earlier: Region| #[trigger]
                old(self)@.live(earlier) ==> final(self)@.live(earlier) && final(self)@.content(
                    earlier,
                ) == old(self)@.content(earlier),
    {
        proof {
            lemma_text_reads_back(s@);
            lemma_with_value(self@, s.spec_bytes(), 1);
        }
        if s.is_empty() {
            return ArenaRef::dangling();
        }
        self.alloc_slice(s.as_bytes())
    }

    /// Stores the bytes `items` one after the other and returns their handle. The empty
    /// slice gets the handle [`ArenaRef::dangling`] and leaves the arena as it is. The
    /// slice must not be larger than a chunk.
    pub fn alloc_slice(&mut self, items: &[u8]) -> (reference: ArenaRef)
        requires
            old(self).wf(),
            items@.len() <= old(self)@.chunk_size,
        ensures
            final(self).wf(),
            final(self)@ == old(self)@.with_value(items@, 1),
            reference@ == old(self)@.place_of_value(items@, 1),
            final(self)@.live(reference@),
            final(self)@.content(reference@) == items@,
            forall|earlier: Region| #[trigger]
                old(self)@.live(earlier) ==> final(self)@.live(earlier) && final(self)@.content(
                    earlier,
                ) == old(self)@.content(earlier),
    {
        proof {
            assert(is_pow2(1)) by {
                reveal(is_pow2);
            }
            lemma_with_value(self@, items@, 1);
        }
        if items.len() == 0 {
            return ArenaRef::dangling();
        }
        let reference = self.alloc_raw(items.len(), 1);
        self.chunks[reference.chunk].store(reference.offset, items);
        assert(self@.chunks =~= old(self)@.with_value(items@, 1).chunks);
        reference
    }

    /// The bytes that `reference` stands for, which must lie inside what this arena has
    /// given out.
    #[must_use]
    pub fn get(&self, reference: ArenaRef) -> (bytes: &[u8])
        requires
            self.wf(),
            self@.live(reference@),
        ensures
            bytes@ == self@.content(reference@),
    {
        self.chunks[reference.chunk].bytes(reference.offset, reference.len)
    }

    /// The bytes that `reference` stands for, or nothing where it does not lie inside what
    /// this arena has given out.
    #[must_use]
    pub fn try_get(&self, reference: ArenaRef) -> (bytes: Option<&[u8]>)
        requires
            self.wf(),
        ensures
            bytes is Some <==> self@.live(reference@),
            bytes is Some ==> bytes->0@ == self@.content(reference@),
    {
        if reference.chunk >= self.chunks.len() {
            return None;
        }
        let used = self.chunks[reference.chunk].cursor;
        if reference.offset > used || reference.len > used - reference.offset {
            return None;
        }
        Some(self.get(reference))
    }

    /// The text that `reference` stands for, where its bytes are valid UTF-8, as those of
    /// every string stored by [`Arena::alloc_str`] are. The reference must lie inside what
    /// this arena has given out.
    #[must_use]
    pub fn get_str(&self, reference: ArenaRef) -> (text: Option<&str>)
        requires
            self.wf(),
            self@.live(reference@),
        ensures
            text is Some <==> valid_utf8(self@.content(reference@)),
            text is Some ==> text->0@ == decode_utf8(self@.content(reference@)),
    {
        let text = text_of(self.get(reference));
        proof {
            if text is Some {
                encode_utf8_decode_utf8(text->0@);
            }
        }
        text
    }

    /// Gives out `size` bytes at an offset that is a multiple of `align`, a power of two.
    /// The request must not be larger than a chunk. It is tried in the current chunk, and
    /// where it does not fit there, a new chunk is added for it.
    pub fn alloc_raw(&mut self, size: usize, align: usize) -> (reference: ArenaRef)
        requires
            old(self).wf(),
            size <= old(self)@.chunk_size,
            is_pow2(align as int),
        ensures
            final(self).wf(),
            reference@ == old(self)@.placement(size as int, align as int),
            final(self)@ == old(self)@.reserved(size as int, align as int),
            final(self)@.live(reference@),
            reference@.len == size,
            reference@.offset % (align as int) == 0,
            forall|earlier: Region| #[trigger]
                old(self)@.live(earlier) ==> earlier.disjoint(reference@) && final(self)@.live(
                    earlier,
                ) && final(self)@.content(earlier) == old(self)@.content(earlier),
    {
        proof {
            lemma_power_of_two_is_positive(align as int);
            lemma_reserved(self@, size as int, align as int);
        }
        let last = self.chunks.len() - 1;
        let reference = match self.chunks[last].try_alloc(size, align) {
            Some(offset) => ArenaRef { chunk: last, offset, len: size },
            None => {
                self.chunks.push(Chunk::new(self.chunk_size));
                let fresh = self.chunks.len() - 1;
                proof {
                    lemma_align_up_of_aligned(0, align as int);
                }
                let offset = self.chunks[fresh].try_alloc(size, align).expect(
                    "fresh chunk must fit allocation within chunk_size",
                );
                ArenaRef { chunk: fresh, offset, len: size }
            },
        };
        self.issued = Ghost(self.issued@.push(reference@));
        assert(self@.chunks =~= old(self)@.reserved(size as int, align as int).chunks);
        reference
    }
}

impl Default for Arena {
    fn default() -> (arena: Arena)
        ensures
            arena.wf(),
            arena@ == ArenaView::fresh(DEFAULT_CHUNK_SIZE as int),
    {
        Arena::new()
    }
}

} // verus!
