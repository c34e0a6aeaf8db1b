//! The in-memory tile cache, the only component touched synchronously from
//! the render path each frame.
//!
//! [`Tiles`] bridges the render path and the asynchronous download worker:
//! it stores decoded tiles, tracks which tile addresses have an outstanding
//! request (so no tile is fetched twice concurrently), and keeps a bounded
//! FIFO buffer of new requests that the surrounding frame loop forwards to
//! the worker's request channel.

use std::collections::HashMap;
use std::collections::HashSet;

use vstd::prelude::*;

use crate::mercator::TileId;
use crate::providers::Attribution;
use crate::providers::Provider;

use vstd::arithmetic::power2::lemma2_to64;
use vstd::arithmetic::power2::lemma_pow2_strictly_increases;

verus! {

broadcast use vstd::std_specs::hash::group_hash_axioms;

/// A decoded raster tile image: RGBA pixel rows, top row first. Immutable
/// once created; owned by the [`Tiles`] cache after insertion.
#[derive(Debug)]
pub struct Tile {
    width: u32,
    height: u32,
    pixels: Vec<u8>,
}

impl Tile {
    /// Width in pixels.
    pub closed spec fn spec_width(self) -> u32 {
        self.width
    }

    /// Height in pixels.
    pub closed spec fn spec_height(self) -> u32 {
        self.height
    }

    /// The RGBA bytes, four per pixel.
    pub closed spec fn spec_pixels(self) -> Seq<u8> {
        self.pixels@
    }

    /// Two tiles hold the same image.
    pub open spec fn same_image(self, other: Tile) -> bool {
        &&& self.spec_width() == other.spec_width()
        &&& self.spec_height() == other.spec_height()
        &&& self.spec_pixels() == other.spec_pixels()
    }

    #[verifier::type_invariant]
    spec fn inv(self) -> bool {
        &&& self.width <= 0x4000
        &&& self.height <= 0x4000
        &&& self.pixels@.len() == 4 * self.width * self.height
    }

    /// Wrap decoded RGBA bytes: four bytes per pixel, rows of `width`
    /// pixels, `height` rows.
    pub fn new(width: u32, height: u32, pixels: Vec<u8>) -> (r: Tile)
        requires
            width <= 0x4000,
            height <= 0x4000,
            pixels@.len() == 4 * width * height,
        ensures
            r.spec_width() == width,
            r.spec_height() == height,
            r.spec_pixels() == pixels@,
    {
        Tile { width, height, pixels }
    }

    /// Width in pixels.
    pub fn width(&self) -> (r: u32)
        ensures
            r == self.spec_width(),
    {
        self.width
    }

    /// Height in pixels.
    pub fn height(&self) -> (r: u32)
        ensures
            r == self.spec_height(),
    {
        self.height
    }

    /// The RGBA bytes, four per pixel.
    pub fn pixels(&self) -> (r: &Vec<u8>)
        ensures
            r@ == self.spec_pixels(),
    {
        &self.pixels
    }
}

/// The big-endian 32-bit integer a byte sequence starts with.
pub open spec fn u32_from_be(b: Seq<u8>) -> int
    recommends
        b.len() >= 4,
{
    (b[0] as int) * 0x100_0000 + (b[1] as int) * 0x1_0000 + (b[2] as int) * 0x100 + (b[3] as int)
}

/// A well-formed raw RGBA dump: width and height as four big-endian bytes
/// each, both at most 2^14, then exactly the pixel bytes of that size.
pub open spec fn rgba_dump_wf(b: Seq<u8>) -> bool {
    &&& b.len() >= 8
    &&& u32_from_be(b.subrange(0, 4)) <= 0x4000
    &&& u32_from_be(b.subrange(4, 8)) <= 0x4000
    &&& b.len() - 8 == 4 * u32_from_be(b.subrange(0, 4)) * u32_from_be(b.subrange(4, 8))
}

impl Tile {
    /// Parse a raw RGBA dump into a tile; fails exactly on the byte
    /// sequences that are not well-formed dumps.
    pub fn from_rgba_dump(bytes: &[u8]) -> (r: Option<Tile>)
        ensures
            r matches Some(t) ==> {
                &&& rgba_dump_wf(bytes@)
                &&& t.spec_width() as int == u32_from_be(bytes@.subrange(0, 4))
                &&& t.spec_height() as int == u32_from_be(bytes@.subrange(4, 8))
                &&& t.spec_pixels() == bytes@.skip(8)
            },
            r is None <==> !rgba_dump_wf(bytes@),
    {
        if bytes.len() < 8 {
            return None;
        }
        let w: u32 = (bytes[0] as u32) * 0x100_0000 + (bytes[1] as u32) * 0x1_0000 + (bytes[2]
            as u32) * 0x100 + (bytes[3] as u32);
        let h: u32 = (bytes[4] as u32) * 0x100_0000 + (bytes[5] as u32) * 0x1_0000 + (bytes[6]
            as u32) * 0x100 + (bytes[7] as u32);
        proof {
            assert(w as int == u32_from_be(bytes@.subrange(0, 4)));
            assert(h as int == u32_from_be(bytes@.subrange(4, 8)));
        }
        if w > 0x4000 || h > 0x4000 {
            return None;
        }
        proof {
            vstd::arithmetic::mul::lemma_mul_upper_bound(w as int, 0x4000, h as int, 0x4000);
            vstd::arithmetic::mul::lemma_mul_nonnegative(w as int, h as int);
        }
        let area: usize = (w as usize) * (h as usize);
        let expected: usize = 4 * area;
        proof {
            assert((4 * (w as int)) * (h as int) == 4 * ((w as int) * (h as int))) by {
                vstd::arithmetic::mul::lemma_mul_is_associative(4, w as int, h as int);
            }
        }
        if bytes.len() - 8 != expected {
            return None;
        }
        let mut pixels: Vec<u8> = Vec::new();
        let mut i: usize = 8;
        while i < bytes.len()
            invariant
                8 <= i <= bytes@.len(),
                pixels@ == bytes@.subrange(8, i as int),
            decreases bytes@.len() - i,
        {
            pixels.push(bytes[i]);
            proof {
                assert(pixels@ =~= bytes@.subrange(8, i + 1));
            }
            i = i + 1;
        }
        proof {
            assert(pixels@ =~= bytes@.skip(8));
        }
        Some(Tile::new(w, h, pixels))
    }
}

/// Copy a byte vector element by element.
fn copy_pixels(v: &Vec<u8>) -> (r: Vec<u8>)
    ensures
        r@ == v@,
{
    let mut out: Vec<u8> = Vec::new();
    let mut i: usize = 0;
    while i < v.len()
        invariant
            i <= v.len(),
            out@ == v@.subrange(0, i as int),
        decreases v.len() - i,
    {
        out.push(v[i]);
        proof {
            assert(out@ =~= v@.subrange(0, i + 1));
        }
        i = i + 1;
    }
    proof {
        assert(out@ =~= v@);
    }
    out
}

/// Duplicate a tile image.
fn copy_tile(t: &Tile) -> (r: Tile)
    ensures
        r.same_image(*t),
{
    proof {
        use_type_invariant(t);
    }
    Tile::new(t.width, t.height, copy_pixels(&t.pixels))
}

/// The cache key of a tile address: zoom, x and y packed into one integer
/// (zoom in the bits above 2^40, x above 2^20, y below).
pub open spec fn spec_key_of(id: TileId) -> int {
    (id.zoom as int) * 0x100_0000_0000 + (id.x as int) * 0x10_0000 + (id.y as int)
}

/// Pack a valid tile address into its cache key.
pub fn key_of(id: TileId) -> (r: u64)
    requires
        id.valid(),
    ensures
        r as int == spec_key_of(id),
{
    proof {
        if (id.zoom as nat) < 19 {
            lemma_pow2_strictly_increases(id.zoom as nat, 19);
        }
        lemma2_to64();
    }
    (id.zoom as u64) * 0x100_0000_0000 + (id.x as u64) * 0x10_0000 + (id.y as u64)
}

/// Distinct valid tile addresses have distinct cache keys.
pub proof fn lemma_key_injective(a: TileId, b: TileId)
    requires
        a.valid(),
        b.valid(),
        spec_key_of(a) == spec_key_of(b),
    ensures
        a == b,
{
    if (a.zoom as nat) < 19 {
        lemma_pow2_strictly_increases(a.zoom as nat, 19);
    }
    if (b.zoom as nat) < 19 {
        lemma_pow2_strictly_increases(b.zoom as nat, 19);
    }
    lemma2_to64();
}

/// Per-map-instance tile store with its pending-request set and the FIFO
/// buffer of requests not yet handed to the download worker.
pub struct Tiles {
    provider: Provider,
    cache: HashMap<u64, Tile>,
    pending: HashSet<u64>,
    requests: Vec<TileId>,
    request_capacity: usize,
}

impl Tiles {
    /// The stored tiles, by packed cache key.
    pub closed spec fn cached(self) -> Map<u64, Tile> {
        self.cache@
    }

    /// Keys with an outstanding, not-yet-resolved download request.
    pub closed spec fn pending_set(self) -> Set<u64> {
        self.pending@
    }

    /// Requests waiting to be handed to the download worker, oldest first.
    pub closed spec fn queued(self) -> Seq<TileId> {
        self.requests@
    }

    /// Bound of the request buffer (the request channel's depth).
    pub closed spec fn capacity(self) -> usize {
        self.request_capacity
    }

    /// The tile server this cache is bound to.
    pub closed spec fn spec_provider(self) -> Provider {
        self.provider
    }

    /// A fresh, empty cache bound to one provider. Replacing the provider
    /// means discarding the whole cache and building a new one.
    pub fn new(provider: Provider, request_capacity: usize) -> (r: Tiles)
        ensures
            r.cached() == Map::<u64, Tile>::empty(),
            r.pending_set() == Set::<u64>::empty(),
            r.queued() == Seq::<TileId>::empty(),
            r.capacity() == request_capacity,
            r.spec_provider() == provider,
    {
        Tiles {
            provider,
            cache: HashMap::new(),
            pending: HashSet::new(),
            requests: Vec::new(),
            request_capacity,
        }
    }

    /// The attribution of the provider this cache is bound to.
    pub fn attribution(&self) -> (r: Attribution)
        ensures
            r.text@ == self.spec_provider().spec_attribution_text(),
            r.url@ == self.spec_provider().spec_attribution_url(),
    {
        self.provider.attribution()
    }

    /// The provider this cache is bound to (for spawning its worker).
    pub fn provider(&self) -> (r: Provider)
        ensures
            r == self.spec_provider(),
    {
        self.provider
    }
}

/// The lookup-or-request transition of the cache, relating the state
/// before one [`Tiles::lookup_or_request`] call to the state after it:
/// a hit changes nothing; a miss enqueues a request and marks the tile
/// pending, unless it is already pending or the request buffer is full.
pub open spec fn lookup_step(pre: Tiles, post: Tiles, id: TileId) -> bool {
    let key = spec_key_of(id) as u64;
    &&& post.cached() == pre.cached()
    &&& post.capacity() == pre.capacity()
    &&& post.spec_provider() == pre.spec_provider()
    &&& if pre.cached().contains_key(key) {
        post.pending_set() == pre.pending_set() && post.queued() == pre.queued()
    } else if !pre.pending_set().contains(key) && pre.queued().len() < pre.capacity() {
        post.pending_set() == pre.pending_set().insert(key) && post.queued() == pre.queued().push(
            id,
        )
    } else {
        post.pending_set() == pre.pending_set() && post.queued() == pre.queued()
    }
}

impl Tiles {
    /// Look a tile up; on a miss, enqueue a request for it unless one is
    /// already outstanding or the request buffer is full. Never waits, and
    /// returns `None` in every miss case.
    ///
    /// Draining completed results from the response channel is done by the
    /// surrounding frame loop through [`Tiles::insert_tile`] before the
    /// frame's lookups.
    pub fn lookup_or_request(&mut self, tile_id: TileId) -> (r: Option<Tile>)
        requires
            tile_id.valid(),
        ensures
            lookup_step(*old(self), *final(self), tile_id),
            r is Some <==> old(self).cached().contains_key(spec_key_of(tile_id) as u64),
            r matches Some(t) ==> t.same_image(
                old(self).cached()[spec_key_of(tile_id) as u64],
            ),
    {
        let key = key_of(tile_id);
        match self.cache.get(&key) {
            Some(t) => Some(copy_tile(t)),
            None => {
                if !self.pending.contains(&key) && self.requests.len() < self.request_capacity {
                    self.pending.insert(key);
                    self.requests.push(tile_id);
                }
                None
            },
        }
    }

    /// Store a downloaded tile and clear its pending marker. The frame
    /// loop calls this for each completed result it drains from the
    /// response channel; results may arrive in any order.
    pub fn insert_tile(&mut self, tile_id: TileId, tile: Tile)
        requires
            tile_id.valid(),
        ensures
            final(self).cached() == old(self).cached().insert(spec_key_of(tile_id) as u64, tile),
            final(self).pending_set() == old(self).pending_set().remove(
                spec_key_of(tile_id) as u64,
            ),
            final(self).queued() == old(self).queued(),
            final(self).capacity() == old(self).capacity(),
            final(self).spec_provider() == old(self).spec_provider(),
    {
        let key = key_of(tile_id);
        self.cache.insert(key, tile);
        self.pending.remove(&key);
    }

    /// Clear the pending marker of a failed fetch, so that a later frame's
    /// cache miss requests the tile again. The worker reports the failure
    /// itself only through this call; it never retries on its own.
    pub fn request_failed(&mut self, tile_id: TileId)
        requires
            tile_id.valid(),
        ensures
            final(self).pending_set() == old(self).pending_set().remove(
                spec_key_of(tile_id) as u64,
            ),
            final(self).cached() == old(self).cached(),
            final(self).queued() == old(self).queued(),
            final(self).capacity() == old(self).capacity(),
            final(self).spec_provider() == old(self).spec_provider(),
    {
        let key = key_of(tile_id);
        self.pending.remove(&key);
    }

    /// Remove and return the oldest queued request; the frame loop hands
    /// it to the download worker's request channel.
    pub fn take_request(&mut self) -> (r: Option<TileId>)
        ensures
            old(self).queued().len() == 0 ==> r is None && *final(self) == *old(self),
            old(self).queued().len() > 0 ==> {
                &&& r == Some(old(self).queued()[0])
                &&& final(self).queued() == old(self).queued().subrange(
                    1,
                    old(self).queued().len() as int,
                )
                &&& final(self).cached() == old(self).cached()
                &&& final(self).pending_set() == old(self).pending_set()
                &&& final(self).capacity() == old(self).capacity()
                &&& final(self).spec_provider() == old(self).spec_provider()
            },
    {
        if self.requests.len() == 0 {
            None
        } else {
            let id = self.requests.remove(0);
            proof {
                assert(self.requests@ =~= old(self).requests@.subrange(
                    1,
                    old(self).requests@.len() as int,
                ));
            }
            Some(id)
        }
    }
}

/// How many times a tile address occurs in a request sequence.
pub open spec fn count_of(q: Seq<TileId>, id: TileId) -> nat
    decreases q.len(),
{
    if q.len() == 0 {
        0
    } else {
        count_of(q.drop_last(), id) + (if q.last() == id {
            1nat
        } else {
            0nat
        })
    }
}

/// Appending one element changes the count by one exactly for that
/// element.
proof fn lemma_count_push(q: Seq<TileId>, x: TileId, id: TileId)
    ensures
        count_of(q.push(x), id) == count_of(q, id) + (if x == id {
            1nat
        } else {
            0nat
        }),
{
    assert(q.push(x).drop_last() =~= q);
    assert(q.push(x).last() == x);
}

/// Request deduplication: looking a missing tile up twice, before any
/// response or failure for it arrives, enqueues at most one request for
/// it. The pending marker set by the first lookup blocks the second.
pub proof fn lemma_request_deduplication(s0: Tiles, s1: Tiles, s2: Tiles, id: TileId)
    requires
        !s0.cached().contains_key(spec_key_of(id) as u64),
        count_of(s0.queued(), id) == 0,
        lookup_step(s0, s1, id),
        lookup_step(s1, s2, id),
    ensures
        count_of(s2.queued(), id) <= 1,
{
    let key = spec_key_of(id) as u64;
    if !s0.pending_set().contains(key) && s0.queued().len() < s0.capacity() {
        lemma_count_push(s0.queued(), id, id);
        assert(s1.pending_set().contains(key));
        assert(s2.queued() == s1.queued());
    } else {
        assert(s1.queued() == s0.queued());
        if !s1.pending_set().contains(key) && s1.queued().len() < s1.capacity() {
            lemma_count_push(s1.queued(), id, id);
        }
    }
}

} // verus!
