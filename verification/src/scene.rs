use vstd::prelude::*;

use crate::bitmap::Bitmap;
use crate::bitmap::BitmapView;
use crate::errors::Error;
use crate::pixel::Pixel;

verus! {

/// A render-ready snapshot of a bitmap's buffer, taken at the last sync. A
/// backend uploads exactly these bytes; the core only guarantees what they
/// are.
#[derive(Debug)]
pub struct Texture {
    pub width: u32,
    pub height: u32,
    pub data: Vec<u8>,
}

/// The mathematical shape of a texture.
pub struct TextureView {
    pub width: nat,
    pub height: nat,
    pub data: Seq<u8>,
}

impl View for Texture {
    type V = TextureView;

    open spec fn view(&self) -> TextureView {
        TextureView { width: self.width as nat, height: self.height as nat, data: self.data@ }
    }
}

fn copy_bytes(src: &Vec<u8>) -> (d: Vec<u8>)
    ensures
        d@ == src@,
{
    let mut d: Vec<u8> = Vec::new();
    let n = src.len();
    let mut k: usize = 0;
    while k < n
        invariant
            k <= n,
            n == src@.len(),
            d@ == src@.subrange(0, k as int),
        decreases n - k,
    {
        d.push(src[k]);
        proof {
            assert(d@ =~= src@.subrange(0, k + 1 as int));
        }
        k = k + 1;
    }
    proof {
        assert(d@ =~= src@);
    }
    d
}

fn clone_texture(t: &Texture) -> (r: Texture)
    ensures
        r@ == t@,
{
    Texture { width: t.width, height: t.height, data: copy_bytes(&t.data) }
}

/// A positioned, depth-ordered drawable. It references a bitmap of the
/// registry by index (or none), caches the texture derived from that bitmap
/// at the last sync, and carries a position and an integer depth `z`.
pub struct Sprite {
    bitmap: Option<usize>,
    texture: Option<Texture>,
    x: i32,
    y: i32,
    z: i32,
}

/// The mathematical shape of a sprite.
pub struct SpriteView {
    pub bitmap: Option<int>,
    pub texture: Option<TextureView>,
    pub x: int,
    pub y: int,
    pub z: int,
}

impl View for Sprite {
    type V = SpriteView;

    closed spec fn view(&self) -> SpriteView {
        SpriteView {
            bitmap: match self.bitmap {
                Some(b) => Some(b as int),
                None => None,
            },
            texture: match self.texture {
                Some(t) => Some(t@),
                None => None,
            },
            x: self.x as int,
            y: self.y as int,
            z: self.z as int,
        }
    }
}

/// A shared, non-owning handle to a bitmap that lives in the registry.
/// Copying a handle aliases the same underlying storage; it never copies the
/// bitmap.
#[derive(Clone, Copy, Debug, PartialEq, Eq, Structural)]
pub struct BitmapId {
    idx: usize,
}

impl BitmapId {
    /// Which slot of the registry this handle aliases.
    pub closed spec fn index(self) -> int {
        self.idx as int
    }
}

/// A shared, non-owning handle to a sprite that lives in the registry.
#[derive(Clone, Copy, Debug, PartialEq, Eq, Structural)]
pub struct SpriteId {
    idx: usize,
}

impl SpriteId {
    /// Which slot of the registry this handle aliases.
    pub closed spec fn index(self) -> int {
        self.idx as int
    }
}

/// The scene registry: the sole long-lived owner of every bitmap and every
/// sprite ever created through it. Script-visible handles are indices into
/// these slots, so two handles with equal indices alias one object, exactly
/// like shared-reference handles would. Nothing is ever removed, so a handle
/// stays valid for the registry's lifetime.
pub struct Graphics {
    bitmaps: Vec<Bitmap>,
    sprites: Vec<Sprite>,
}

/// One draw command of a draw pass: which sprite it draws, where, at which
/// depth, and the texture whose bytes a backend puts on screen.
#[derive(Debug)]
pub struct DrawCall {
    pub sprite: usize,
    pub x: i32,
    pub y: i32,
    pub z: i32,
    pub texture: Texture,
}

/// The strict draw order: lower depth first; among equal depths, the earlier
/// registered sprite first, so equal-depth sprites keep registration order.
pub open spec fn draw_before(a: DrawCall, b: DrawCall) -> bool {
    a.z < b.z || (a.z == b.z && a.sprite < b.sprite)
}

/// Two draw calls for different sprites are always ordered one way or the
/// other: `draw_before` is total on them.
pub proof fn lemma_draw_before_total(a: DrawCall, b: DrawCall)
    requires
        a.sprite != b.sprite,
    ensures
        draw_before(a, b) || draw_before(b, a),
{
}

fn draw_before_exec(a: &DrawCall, b: &DrawCall) -> (r: bool)
    ensures
        r == draw_before(*a, *b),
{
    a.z < b.z || (a.z == b.z && a.sprite < b.sprite)
}

/// Within one successful draw pass the depths are non-decreasing across
/// consecutive commands, and commands of equal depth keep registration
/// order: the sort behind a draw pass is stable.
pub proof fn lemma_draw_order(g: Graphics, calls: Seq<DrawCall>, k1: int, k2: int)
    requires
        g.draw_calls_ok(calls),
        0 <= k1 < k2 < calls.len(),
    ensures
        calls[k1].z <= calls[k2].z,
        calls[k1].z == calls[k2].z ==> calls[k1].sprite < calls[k2].sprite,
{
}

/// Aliasing made explicit: when two sprites reference the same bitmap slot,
/// a pixel written through one sprite's bitmap handle is read back through
/// the other sprite's bitmap handle, because both handles name one buffer.
pub proof fn lemma_aliased_write_visible(
    pre: Graphics,
    post: Graphics,
    s1: int,
    s2: int,
    b: int,
    x: int,
    y: int,
    p: Pixel,
)
    requires
        pre.wf(),
        pre.valid_sprite(s1),
        pre.valid_sprite(s2),
        pre.spr(s1).bitmap == Some(b),
        pre.spr(s2).bitmap == Some(b),
        pre.bmp(b).in_bounds(x, y),
        post.n_sprites() == pre.n_sprites(),
        forall|t: int| pre.valid_sprite(t) ==> post.spr(t) == pre.spr(t),
        post.bmp(b) == pre.bmp(b).with_px(x, y, p),
    ensures
        post.spr(s2).bitmap == Some(b),
        post.bmp(b).px(x, y) == p,
{
    assert(pre.valid_bitmap(b));
    assert(pre.bmp(b).wf());
    crate::bitmap::lemma_set_then_get(pre.bmp(b), x, y, p);
}

/// After a sync, the bitmap of every sprite that has one is clean, and where
/// that bitmap was dirty before the call the sprite's cached texture is a
/// snapshot of the bitmap's buffer, which the sync left unchanged.
pub proof fn lemma_sync_refreshes_sprite(pre: Graphics, post: Graphics, s: int, b: int)
    requires
        pre.wf(),
        Graphics::sync_rel(pre, post),
        pre.valid_sprite(s),
        pre.spr(s).bitmap == Some(b),
    ensures
        post.spr(s).bitmap == Some(b),
        !post.bmp(b).dirty,
        pre.bmp(b).dirty ==> post.spr(s).texture == Some(
            TextureView {
                width: post.bmp(b).width,
                height: post.bmp(b).height,
                data: post.bmp(b).data,
            },
        ),
{
    assert(pre.valid_bitmap(b));
    assert(pre.references_bitmap(b)) by {
        assert(pre.valid_sprite(s) && pre.spr(s).bitmap == Some(b));
    }
}

/// Whether one of the first `s` sprite slots references bitmap slot `i`.
spec fn prefix_references(g: Graphics, i: int, s: int) -> bool {
    exists|t: int| 0 <= t < s && (#[trigger] g.spr(t)).bitmap == Some(i)
}

/// Extending the prefix by a sprite that references a different bitmap does
/// not change whether slot `i` is referenced by the prefix.
proof fn lemma_prefix_references_step(g: Graphics, i: int, s: int, b: int)
    requires
        g.spr(s).bitmap == Some(b),
        i != b,
    ensures
        prefix_references(g, i, s + 1) == prefix_references(g, i, s),
{
    if prefix_references(g, i, s + 1) {
        let t = choose|t: int| 0 <= t < s + 1 && (#[trigger] g.spr(t)).bitmap == Some(i);
        assert(t != s);
        assert(prefix_references(g, i, s));
    }
    if prefix_references(g, i, s) {
        let t = choose|t: int| 0 <= t < s && (#[trigger] g.spr(t)).bitmap == Some(i);
        assert(0 <= t < s + 1 && g.spr(t).bitmap == Some(i));
    }
}

/// Extending the prefix by a sprite without a bitmap does not change whether
/// any slot is referenced by the prefix.
proof fn lemma_prefix_references_step_none(g: Graphics, i: int, s: int)
    requires
        g.spr(s).bitmap is None,
    ensures
        prefix_references(g, i, s + 1) == prefix_references(g, i, s),
{
    if prefix_references(g, i, s + 1) {
        let t = choose|t: int| 0 <= t < s + 1 && (#[trigger] g.spr(t)).bitmap == Some(i);
        assert(t != s);
        assert(prefix_references(g, i, s));
    }
    if prefix_references(g, i, s) {
        let t = choose|t: int| 0 <= t < s && (#[trigger] g.spr(t)).bitmap == Some(i);
        assert(0 <= t < s + 1 && g.spr(t).bitmap == Some(i));
    }
}

/// Appending a sprite whose bitmap reference, if any, points at a live slot
/// keeps the registry well-formed and leaves everything already there as it
/// was.
proof fn lemma_frame_sprite_push(pre: Graphics, post: Graphics)
    requires
        pre.wf(),
        post.bitmaps@ == pre.bitmaps@,
        post.sprites@ == pre.sprites@.push(post.sprites@[pre.sprites@.len() as int]),
        post.spr(pre.n_sprites()).bitmap matches Some(b) ==> post.valid_bitmap(b),
    ensures
        post.wf(),
        post.n_bitmaps() == pre.n_bitmaps(),
        post.n_sprites() == pre.n_sprites() + 1,
        forall|i: int| pre.valid_bitmap(i) ==> post.bmp(i) == pre.bmp(i),
        forall|s: int| pre.valid_sprite(s) ==> post.spr(s) == pre.spr(s),
{
    assert forall|i: int| post.valid_bitmap(i) implies (#[trigger] post.bmp(i)).wf() by {
        assert(pre.bmp(i).wf());
    }
    assert forall|s: int|
        post.valid_sprite(s) implies ((#[trigger] post.spr(s)).bitmap matches Some(b)
        ==> post.valid_bitmap(b)) by {
        if s < pre.n_sprites() {
            assert(post.spr(s) == pre.spr(s));
            assert(pre.spr(s).bitmap matches Some(b) ==> pre.valid_bitmap(b));
        }
    }
}

/// Replacing one sprite slot, without touching its bitmap reference's
/// validity, keeps the registry well-formed and leaves every bitmap and every
/// other sprite as it was.
proof fn lemma_frame_sprite_update(pre: Graphics, post: Graphics, idx: int)
    requires
        pre.wf(),
        0 <= idx < pre.n_sprites(),
        post.sprites@ == pre.sprites@.update(idx, post.sprites@[idx]),
        post.bitmaps@ == pre.bitmaps@,
        post.spr(idx).bitmap matches Some(b) ==> post.valid_bitmap(b),
    ensures
        post.wf(),
        post.n_bitmaps() == pre.n_bitmaps(),
        post.n_sprites() == pre.n_sprites(),
        forall|i: int| pre.valid_bitmap(i) ==> post.bmp(i) == pre.bmp(i),
        forall|s: int|
            pre.valid_sprite(s) && s != idx ==> post.spr(s) == pre.spr(s),
{
    assert forall|i: int| post.valid_bitmap(i) implies (#[trigger] post.bmp(i)).wf() by {
        assert(pre.bmp(i).wf());
    }
    assert forall|s: int|
        post.valid_sprite(s) implies ((#[trigger] post.spr(s)).bitmap matches Some(b)
        ==> post.valid_bitmap(b)) by {
        if s != idx {
            assert(post.spr(s) == pre.spr(s));
            assert(pre.spr(s).bitmap matches Some(b) ==> pre.valid_bitmap(b));
        }
    }
}

/// Replacing one bitmap slot with a well-formed bitmap keeps the registry
/// well-formed and leaves every other slot and every sprite as it was.
proof fn lemma_frame_bitmap_update(pre: Graphics, post: Graphics, idx: int)
    requires
        pre.wf(),
        0 <= idx < pre.n_bitmaps(),
        post.bitmaps@ == pre.bitmaps@.update(idx, post.bitmaps@[idx]),
        post.sprites@ == pre.sprites@,
        post.bmp(idx).wf(),
    ensures
        post.wf(),
        post.n_bitmaps() == pre.n_bitmaps(),
        post.n_sprites() == pre.n_sprites(),
        forall|i: int|
            pre.valid_bitmap(i) && i != idx ==> post.bmp(i) == pre.bmp(i),
        forall|s: int| pre.valid_sprite(s) ==> post.spr(s) == pre.spr(s),
{
    assert forall|i: int| post.valid_bitmap(i) implies (#[trigger] post.bmp(i)).wf() by {
        if i != idx {
            assert(pre.bmp(i).wf());
        }
    }
    assert forall|s: int|
        post.valid_sprite(s) implies ((#[trigger] post.spr(s)).bitmap matches Some(b)
        ==> post.valid_bitmap(b)) by {
        assert(post.spr(s) == pre.spr(s));
    }
}

impl Graphics {
    /// How many bitmaps live in the registry.
    pub closed spec fn n_bitmaps(self) -> int {
        self.bitmaps@.len() as int
    }

    /// The bitmap in slot `i`.
    pub closed spec fn bmp(self, i: int) -> BitmapView {
        self.bitmaps@[i]@
    }

    /// How many sprites live in the registry.
    pub closed spec fn n_sprites(self) -> int {
        self.sprites@.len() as int
    }

    /// The sprite in slot `s`.
    pub closed spec fn spr(self, s: int) -> SpriteView {
        self.sprites@[s]@
    }

    pub open spec fn valid_bitmap(self, i: int) -> bool {
        0 <= i < self.n_bitmaps()
    }

    pub open spec fn valid_sprite(self, s: int) -> bool {
        0 <= s < self.n_sprites()
    }

    /// Every bitmap's buffer matches its dimensions, and every sprite's
    /// bitmap reference points at a live slot.
    pub open spec fn wf(self) -> bool {
        &&& forall|i: int| self.valid_bitmap(i) ==> (#[trigger] self.bmp(i)).wf()
        &&& forall|s: int|
            self.valid_sprite(s) ==> ((#[trigger] self.spr(s)).bitmap matches Some(b)
                ==> self.valid_bitmap(b))
    }

    /// An empty scene: no bitmaps, no sprites.
    pub fn new() -> (g: Graphics)
        ensures
            g.wf(),
            g.n_bitmaps() == 0,
            g.n_sprites() == 0,
    {
        Graphics { bitmaps: Vec::new(), sprites: Vec::new() }
    }

    /// Moves a bitmap into the registry and hands back the handle through
    /// which it is shared from now on. Never fails.
    pub fn add_bitmap(&mut self, bitmap: Bitmap) -> (id: BitmapId)
        requires
            old(self).wf(),
            bitmap@.wf(),
        ensures
            final(self).wf(),
            id.index() == old(self).n_bitmaps(),
            final(self).n_bitmaps() == old(self).n_bitmaps() + 1,
            final(self).bmp(id.index()) == bitmap@,
            forall|i: int|
                old(self).valid_bitmap(i) ==> final(self).bmp(i) == old(self).bmp(i),
            final(self).n_sprites() == old(self).n_sprites(),
            forall|s: int|
                old(self).valid_sprite(s) ==> final(self).spr(s) == old(self).spr(s),
    {
        let idx = self.bitmaps.len();
        self.bitmaps.push(bitmap);
        proof {
            assert forall|i: int| self.valid_bitmap(i) implies (#[trigger] self.bmp(i)).wf() by {
                if i < idx {
                    assert(old(self).bmp(i).wf());
                } else {
                    assert(self.bmp(i) == bitmap@);
                }
            }
            assert forall|s: int|
                self.valid_sprite(s) implies ((#[trigger] self.spr(s)).bitmap matches Some(b)
                ==> self.valid_bitmap(b)) by {
                assert(self.spr(s) == old(self).spr(s));
                assert(old(self).spr(s).bitmap matches Some(b) ==> old(self).valid_bitmap(b));
            }
        }
        BitmapId { idx }
    }

    /// Reads a pixel of the bitmap a handle aliases; the bounds contract is
    /// `Bitmap::get_pixel`'s.
    pub fn get_pixel(&self, id: BitmapId, x: u32, y: u32) -> (r: Result<Pixel, Error>)
        requires
            self.wf(),
            self.valid_bitmap(id.index()),
        ensures
            match r {
                Ok(p) => self.bmp(id.index()).in_bounds(x as int, y as int) && p == self.bmp(
                    id.index(),
                ).px(x as int, y as int),
                Err(e) => e == Error::OutOfBounds && !self.bmp(id.index()).in_bounds(
                    x as int,
                    y as int,
                ),
            },
    {
        proof {
            assert(self.bmp(id.index()).wf());
        }
        self.bitmaps[id.idx].get_pixel(x, y)
    }

    /// Whether the bitmap a handle aliases has changed since its last sync.
    pub fn bitmap_is_dirty(&self, id: BitmapId) -> (d: bool)
        requires
            self.wf(),
            self.valid_bitmap(id.index()),
        ensures
            d == self.bmp(id.index()).dirty,
    {
        self.bitmaps[id.idx].is_dirty()
    }

    /// The width and height of the bitmap a handle aliases.
    pub fn bitmap_size(&self, id: BitmapId) -> (s: (u32, u32))
        requires
            self.wf(),
            self.valid_bitmap(id.index()),
        ensures
            s.0 == self.bmp(id.index()).width,
            s.1 == self.bmp(id.index()).height,
    {
        (self.bitmaps[id.idx].width(), self.bitmaps[id.idx].height())
    }

    /// Writes a pixel through a handle. Every other bitmap, and every sprite,
    /// is untouched; any sprite whose handle aliases the same slot sees the
    /// write.
    pub fn set_pixel(&mut self, id: BitmapId, x: u32, y: u32, p: Pixel) -> (r: Result<(), Error>)
        requires
            old(self).wf(),
            old(self).valid_bitmap(id.index()),
        ensures
            final(self).wf(),
            final(self).n_bitmaps() == old(self).n_bitmaps(),
            final(self).n_sprites() == old(self).n_sprites(),
            forall|s: int|
                old(self).valid_sprite(s) ==> final(self).spr(s) == old(self).spr(s),
            forall|i: int|
                old(self).valid_bitmap(i) && i != id.index() ==> final(self).bmp(i) == old(self).bmp(i),
            match r {
                Ok(()) => old(self).bmp(id.index()).in_bounds(x as int, y as int) && final(self).bmp(id.index()) == old(self).bmp(id.index()).with_px(x as int, y as int, p),
                Err(e) => {
                    &&& e == Error::OutOfBounds
                    &&& !old(self).bmp(id.index()).in_bounds(x as int, y as int)
                    &&& final(self).bmp(id.index()) == old(self).bmp(id.index())
                },
            },
    {
        proof {
            assert(self.bmp(id.index()).wf());
        }
        let r = self.bitmaps[id.idx].set_pixel(x, y, p);
        proof {
            lemma_frame_bitmap_update(*old(self), *self, id.index());
        }
        r
    }

    /// Fills a rectangle through a handle; the contract is
    /// `Bitmap::fill_rect`'s, with everything else untouched.
    pub fn fill_rect(&mut self, id: BitmapId, x: u32, y: u32, rw: u32, rh: u32, p: Pixel) -> (r:
        Result<(), Error>)
        requires
            old(self).wf(),
            old(self).valid_bitmap(id.index()),
        ensures
            final(self).wf(),
            final(self).n_bitmaps() == old(self).n_bitmaps(),
            final(self).n_sprites() == old(self).n_sprites(),
            forall|s: int|
                old(self).valid_sprite(s) ==> final(self).spr(s) == old(self).spr(s),
            forall|i: int|
                old(self).valid_bitmap(i) && i != id.index() ==> final(self).bmp(i) == old(self).bmp(i),
            match r {
                Ok(()) => {
                    &&& crate::bitmap::rect_fits(
                        old(self).bmp(id.index()),
                        x as int,
                        y as int,
                        rw as int,
                        rh as int,
                    )
                    &&& final(self).bmp(id.index()).width == old(self).bmp(id.index()).width
                    &&& final(self).bmp(id.index()).height == old(self).bmp(id.index()).height
                    &&& final(self).bmp(id.index()).dirty
                    &&& forall|i: int, j: int|
                        old(self).bmp(id.index()).in_bounds(i, j) ==> final(self).bmp(
                            id.index(),
                        ).px(i, j) == (if crate::bitmap::in_rect(
                            x as int,
                            y as int,
                            rw as int,
                            rh as int,
                            i,
                            j,
                        ) {
                            p
                        } else {
                            old(self).bmp(id.index()).px(i, j)
                        })
                },
                Err(e) => {
                    &&& e == Error::OutOfBounds
                    &&& !crate::bitmap::rect_fits(
                        old(self).bmp(id.index()),
                        x as int,
                        y as int,
                        rw as int,
                        rh as int,
                    )
                    &&& final(self).bmp(id.index()) == old(self).bmp(id.index())
                },
            },
    {
        proof {
            assert(self.bmp(id.index()).wf());
        }
        let r = self.bitmaps[id.idx].fill_rect(x, y, rw, rh, p);
        proof {
            lemma_frame_bitmap_update(*old(self), *self, id.index());
        }
        r
    }

    /// Allocates a sprite referencing the given bitmap, at position (0, 0)
    /// and depth 0, with no cached texture yet, inserts it into the registry
    /// and returns its handle. Never fails: the bitmap handle is valid by
    /// construction. The sprite stays registered for the registry's lifetime.
    pub fn create_sprite(&mut self, bitmap: BitmapId) -> (id: SpriteId)
        requires
            old(self).wf(),
            old(self).valid_bitmap(bitmap.index()),
        ensures
            final(self).wf(),
            id.index() == old(self).n_sprites(),
            final(self).n_sprites() == old(self).n_sprites() + 1,
            final(self).spr(id.index()) == (SpriteView {
                bitmap: Some(bitmap.index()),
                texture: None,
                x: 0,
                y: 0,
                z: 0,
            }),
            forall|s: int|
                old(self).valid_sprite(s) ==> final(self).spr(s) == old(self).spr(s),
            final(self).n_bitmaps() == old(self).n_bitmaps(),
            forall|i: int|
                old(self).valid_bitmap(i) ==> final(self).bmp(i) == old(self).bmp(i),
    {
        let idx = self.sprites.len();
        self.sprites.push(
            Sprite { bitmap: Some(bitmap.idx), texture: None, x: 0, y: 0, z: 0 },
        );
        proof {
            lemma_frame_sprite_push(*old(self), *self);
        }
        SpriteId { idx }
    }

    /// Allocates a sprite with no bitmap at all: not yet renderable, but a
    /// valid registry entry whose bitmap can be assigned later.
    pub fn create_empty_sprite(&mut self) -> (id: SpriteId)
        requires
            old(self).wf(),
        ensures
            final(self).wf(),
            id.index() == old(self).n_sprites(),
            final(self).n_sprites() == old(self).n_sprites() + 1,
            final(self).spr(id.index()) == (SpriteView {
                bitmap: None,
                texture: None,
                x: 0,
                y: 0,
                z: 0,
            }),
            forall|s: int|
                old(self).valid_sprite(s) ==> final(self).spr(s) == old(self).spr(s),
            final(self).n_bitmaps() == old(self).n_bitmaps(),
            forall|i: int|
                old(self).valid_bitmap(i) ==> final(self).bmp(i) == old(self).bmp(i),
    {
        let idx = self.sprites.len();
        self.sprites.push(Sprite { bitmap: None, texture: None, x: 0, y: 0, z: 0 });
        proof {
            lemma_frame_sprite_push(*old(self), *self);
        }
        SpriteId { idx }
    }

    /// The handle of the bitmap a sprite references, or `None` for a sprite
    /// without one: an explicit "no bitmap" result, not an error.
    pub fn sprite_bitmap(&self, id: SpriteId) -> (r: Option<BitmapId>)
        requires
            self.wf(),
            self.valid_sprite(id.index()),
        ensures
            match r {
                Some(b) => self.spr(id.index()).bitmap == Some(b.index()) && self.valid_bitmap(
                    b.index(),
                ),
                None => self.spr(id.index()).bitmap is None,
            },
    {
        match self.sprites[id.idx].bitmap {
            Some(b) => Some(BitmapId { idx: b }),
            None => None,
        }
    }

    /// Points a sprite at the bitmap another handle aliases. This aliases the
    /// same underlying storage: later edits through either handle are seen
    /// through both. The cached texture is left as it is until the next sync.
    pub fn sprite_set_bitmap(&mut self, id: SpriteId, bitmap: BitmapId)
        requires
            old(self).wf(),
            old(self).valid_sprite(id.index()),
            old(self).valid_bitmap(bitmap.index()),
        ensures
            final(self).wf(),
            final(self).n_bitmaps() == old(self).n_bitmaps(),
            final(self).n_sprites() == old(self).n_sprites(),
            final(self).spr(id.index()) == (SpriteView {
                bitmap: Some(bitmap.index()),
                ..old(self).spr(id.index())
            }),
            forall|s: int|
                old(self).valid_sprite(s) && s != id.index() ==> final(self).spr(s) == old(
                    self,
                ).spr(s),
            forall|i: int|
                old(self).valid_bitmap(i) ==> final(self).bmp(i) == old(self).bmp(i),
    {
        self.sprites[id.idx].bitmap = Some(bitmap.idx);
        proof {
            lemma_frame_sprite_update(*old(self), *self, id.index());
        }
    }

    /// A sprite's x position.
    pub fn sprite_x(&self, id: SpriteId) -> (x: i32)
        requires
            self.wf(),
            self.valid_sprite(id.index()),
        ensures
            x == self.spr(id.index()).x,
    {
        self.sprites[id.idx].x
    }

    /// A sprite's y position.
    pub fn sprite_y(&self, id: SpriteId) -> (y: i32)
        requires
            self.wf(),
            self.valid_sprite(id.index()),
        ensures
            y == self.spr(id.index()).y,
    {
        self.sprites[id.idx].y
    }

    /// Moves a sprite horizontally; everything else is untouched.
    pub fn sprite_set_x(&mut self, id: SpriteId, x: i32)
        requires
            old(self).wf(),
            old(self).valid_sprite(id.index()),
        ensures
            final(self).wf(),
            final(self).n_bitmaps() == old(self).n_bitmaps(),
            final(self).n_sprites() == old(self).n_sprites(),
            final(self).spr(id.index()) == (SpriteView {
                x: x as int,
                ..old(self).spr(id.index())
            }),
            forall|s: int|
                old(self).valid_sprite(s) && s != id.index() ==> final(self).spr(s) == old(
                    self,
                ).spr(s),
            forall|i: int|
                old(self).valid_bitmap(i) ==> final(self).bmp(i) == old(self).bmp(i),
    {
        self.sprites[id.idx].x = x;
        proof {
            lemma_frame_sprite_update(*old(self), *self, id.index());
        }
    }

    /// Moves a sprite vertically; everything else is untouched.
    pub fn sprite_set_y(&mut self, id: SpriteId, y: i32)
        requires
            old(self).wf(),
            old(self).valid_sprite(id.index()),
        ensures
            final(self).wf(),
            final(self).n_bitmaps() == old(self).n_bitmaps(),
            final(self).n_sprites() == old(self).n_sprites(),
            final(self).spr(id.index()) == (SpriteView {
                y: y as int,
                ..old(self).spr(id.index())
            }),
            forall|s: int|
                old(self).valid_sprite(s) && s != id.index() ==> final(self).spr(s) == old(
                    self,
                ).spr(s),
            forall|i: int|
                old(self).valid_bitmap(i) ==> final(self).bmp(i) == old(self).bmp(i),
    {
        self.sprites[id.idx].y = y;
        proof {
            lemma_frame_sprite_update(*old(self), *self, id.index());
        }
    }

    /// Sets a sprite's depth. Lower `z` is drawn first, so higher `z` appears
    /// on top; the new depth is observed by the next draw pass.
    pub fn sprite_set_z(&mut self, id: SpriteId, z: i32)
        requires
            old(self).wf(),
            old(self).valid_sprite(id.index()),
        ensures
            final(self).wf(),
            final(self).n_bitmaps() == old(self).n_bitmaps(),
            final(self).n_sprites() == old(self).n_sprites(),
            final(self).spr(id.index()) == (SpriteView {
                z: z as int,
                ..old(self).spr(id.index())
            }),
            forall|s: int|
                old(self).valid_sprite(s) && s != id.index() ==> final(self).spr(s) == old(
                    self,
                ).spr(s),
            forall|i: int|
                old(self).valid_bitmap(i) ==> final(self).bmp(i) == old(self).bmp(i),
    {
        self.sprites[id.idx].z = z;
        proof {
            lemma_frame_sprite_update(*old(self), *self, id.index());
        }
    }

    /// Whether some registered sprite references bitmap slot `i`.
    pub open spec fn references_bitmap(self, i: int) -> bool {
        exists|s: int| self.valid_sprite(s) && (#[trigger] self.spr(s)).bitmap == Some(i)
    }

    /// The cached texture sprite `s` holds after a sync of this scene: a
    /// fresh snapshot of its bitmap's buffer if that bitmap was dirty, and
    /// whatever it held before otherwise. A sprite without a bitmap is
    /// skipped, not an error.
    pub open spec fn synced_texture(self, s: int) -> Option<TextureView> {
        match self.spr(s).bitmap {
            Some(b) => if self.bmp(b).dirty {
                Some(
                    TextureView {
                        width: self.bmp(b).width,
                        height: self.bmp(b).height,
                        data: self.bmp(b).data,
                    },
                )
            } else {
                self.spr(s).texture
            },
            None => self.spr(s).texture,
        }
    }

    /// How a sync transforms the scene: no bitmap's buffer or dimensions
    /// change; a bitmap's dirty flag is lowered exactly when some sprite
    /// references it; every sprite keeps its bitmap reference, position and
    /// depth, and its cached texture becomes `synced_texture`, so after the
    /// call the texture of every sprite whose bitmap was dirty reflects that
    /// bitmap's current buffer.
    pub open spec fn sync_rel(pre: Graphics, post: Graphics) -> bool {
        &&& post.n_bitmaps() == pre.n_bitmaps()
        &&& post.n_sprites() == pre.n_sprites()
        &&& forall|i: int|
            pre.valid_bitmap(i) ==> {
                let b0 = pre.bmp(i);
                let b1 = #[trigger] post.bmp(i);
                &&& b1.width == b0.width
                &&& b1.height == b0.height
                &&& b1.data == b0.data
                &&& b1.dirty == (b0.dirty && !pre.references_bitmap(i))
            }
        &&& forall|s: int|
            pre.valid_sprite(s) ==> {
                let s0 = pre.spr(s);
                let s1 = #[trigger] post.spr(s);
                &&& s1.bitmap == s0.bitmap
                &&& s1.x == s0.x
                &&& s1.y == s0.y
                &&& s1.z == s0.z
                &&& s1.texture == pre.synced_texture(s)
            }
    }

    /// One per-frame synchronization pass: regenerates the cached texture of
    /// every sprite whose bitmap is dirty from that bitmap's current buffer,
    /// then lowers the dirty flag of every referenced bitmap. Must run once
    /// per frame before `draw`.
    pub fn sync(&mut self)
        requires
            old(self).wf(),
        ensures
            final(self).wf(),
            Graphics::sync_rel(*old(self), *final(self)),
    {
        let ghost g0 = *self;
        let n = self.sprites.len();
        let mut s: usize = 0;
        while s < n
            invariant
                g0.wf(),
                s <= n,
                n == self.sprites@.len(),
                n == g0.sprites@.len(),
                self.bitmaps@ == g0.bitmaps@,
                forall|t: int|
                    0 <= t < s ==> {
                        let s0 = g0.spr(t);
                        let s1 = #[trigger] self.spr(t);
                        &&& s1.bitmap == s0.bitmap
                        &&& s1.x == s0.x
                        &&& s1.y == s0.y
                        &&& s1.z == s0.z
                        &&& s1.texture == g0.synced_texture(t)
                    },
                forall|t: int| s <= t < n ==> #[trigger] self.spr(t) == g0.spr(t),
            decreases n - s,
        {
            let ghost pre = *self;
            let sp_bitmap = self.sprites[s].bitmap;
            if let Some(b) = sp_bitmap {
                proof {
                    assert(self.spr(s as int) == g0.spr(s as int));
                    assert(g0.spr(s as int).bitmap == Some(b as int));
                    assert(g0.valid_bitmap(b as int));
                }
                if self.bitmaps[b].is_dirty() {
                    let w = self.bitmaps[b].width();
                    let h = self.bitmaps[b].height();
                    let data = self.bitmaps[b].snapshot_data();
                    let ghost texv = TextureView {
                        width: w as nat,
                        height: h as nat,
                        data: data@,
                    };
                    let x = self.sprites[s].x;
                    let y = self.sprites[s].y;
                    let z = self.sprites[s].z;
                    self.sprites[s] = Sprite {
                        bitmap: Some(b),
                        texture: Some(Texture { width: w, height: h, data }),
                        x,
                        y,
                        z,
                    };
                    proof {
                        assert(g0.bmp(b as int).dirty);
                        assert(g0.synced_texture(s as int) == Some(texv));
                        assert(self.sprites@ == pre.sprites@.update(
                            s as int,
                            self.sprites@[s as int],
                        ));
                        assert(self.spr(s as int).bitmap == Some(b as int));
                        assert(self.spr(s as int).texture == Some(texv));
                        assert(self.spr(s as int).x == g0.spr(s as int).x);
                        assert(self.spr(s as int).y == g0.spr(s as int).y);
                        assert(self.spr(s as int).z == g0.spr(s as int).z);
                        assert forall|t: int| 0 <= t < s + 1 implies {
                            let s0 = g0.spr(t);
                            let s1 = #[trigger] self.spr(t);
                            &&& s1.bitmap == s0.bitmap
                            &&& s1.x == s0.x
                            &&& s1.y == s0.y
                            &&& s1.z == s0.z
                            &&& s1.texture == g0.synced_texture(t)
                        } by {
                            if t < s {
                                assert(self.spr(t) == pre.spr(t));
                            }
                        }
                        assert forall|t: int| s + 1 <= t < n implies #[trigger] self.spr(t)
                            == g0.spr(t) by {
                            assert(self.spr(t) == pre.spr(t));
                        }
                    }
                } else {
                    proof {
                        assert(!g0.bmp(b as int).dirty);
                        assert(g0.synced_texture(s as int) == g0.spr(s as int).texture);
                        assert(self.spr(s as int).texture == g0.synced_texture(s as int));
                    }
                }
            } else {
                proof {
                    assert(self.spr(s as int) == g0.spr(s as int));
                    assert(g0.spr(s as int).bitmap is None);
                    assert(g0.synced_texture(s as int) == g0.spr(s as int).texture);
                }
            }
            s = s + 1;
        }
        let ghost g1 = *self;
        let mut s: usize = 0;
        while s < n
            invariant
                g0.wf(),
                s <= n,
                n == g1.sprites@.len(),
                n == g0.sprites@.len(),
                self.sprites@ == g1.sprites@,
                g1.bitmaps@ == g0.bitmaps@,
                self.n_bitmaps() == g0.n_bitmaps(),
                forall|i: int|
                    g0.valid_bitmap(i) ==> {
                        let b0 = g0.bmp(i);
                        let b1 = #[trigger] self.bmp(i);
                        &&& b1.width == b0.width
                        &&& b1.height == b0.height
                        &&& b1.data == b0.data
                        &&& b1.dirty == (b0.dirty && !prefix_references(g1, i, s as int))
                    },
                forall|t: int|
                    0 <= t < n ==> {
                        let s0 = g0.spr(t);
                        let s1 = #[trigger] g1.spr(t);
                        &&& s1.bitmap == s0.bitmap
                        &&& s1.x == s0.x
                        &&& s1.y == s0.y
                        &&& s1.z == s0.z
                        &&& s1.texture == g0.synced_texture(t)
                    },
            decreases n - s,
        {
            let sp_bitmap = self.sprites[s].bitmap;
            proof {
                assert(g1.spr(s as int).bitmap == g0.spr(s as int).bitmap);
            }
            if let Some(b) = sp_bitmap {
                proof {
                    assert(g1.spr(s as int).bitmap == Some(b as int));
                    assert(g0.valid_sprite(s as int));
                    assert(g0.spr(s as int).bitmap == Some(b as int));
                    assert(g0.valid_bitmap(b as int));
                }
                let ghost mid = *self;
                self.bitmaps[b].clear_dirty();
                proof {
                    assert forall|i: int| g0.valid_bitmap(i) implies {
                        let b0 = g0.bmp(i);
                        let b1 = #[trigger] self.bmp(i);
                        &&& b1.width == b0.width
                        &&& b1.height == b0.height
                        &&& b1.data == b0.data
                        &&& b1.dirty == (b0.dirty && !prefix_references(g1, i, s + 1))
                    } by {
                        assert(mid.bmp(i).width == g0.bmp(i).width);
                        if i == b as int {
                            assert(prefix_references(g1, i, s + 1)) by {
                                assert(g1.spr(s as int).bitmap == Some(i));
                            }
                            assert(!self.bmp(i).dirty);
                        } else {
                            assert(self.bmp(i) == mid.bmp(i));
                            lemma_prefix_references_step(g1, i, s as int, b as int);
                        }
                    }
                }
            } else {
                proof {
                    assert forall|i: int| g0.valid_bitmap(i) implies (#[trigger] self.bmp(
                        i,
                    )).dirty == (g0.bmp(i).dirty && !prefix_references(g1, i, s + 1)) by {
                        lemma_prefix_references_step_none(g1, i, s as int);
                    }
                }
            }
            s = s + 1;
        }
        proof {
            assert forall|i: int| g0.valid_bitmap(i) implies (#[trigger] self.bmp(i)).dirty == (
            g0.bmp(i).dirty && !g0.references_bitmap(i)) by {
                assert(self.bmp(i).dirty == (g0.bmp(i).dirty && !prefix_references(
                    g1,
                    i,
                    n as int,
                )));
                if prefix_references(g1, i, n as int) {
                    let t = choose|t: int|
                        0 <= t < n && (#[trigger] g1.spr(t)).bitmap == Some(i);
                    assert(g0.spr(t).bitmap == Some(i));
                    assert(g0.references_bitmap(i));
                }
                if g0.references_bitmap(i) {
                    let t = choose|t: int|
                        g0.valid_sprite(t) && (#[trigger] g0.spr(t)).bitmap == Some(i);
                    assert(g1.spr(t).bitmap == Some(i));
                    assert(prefix_references(g1, i, n as int));
                }
            }
            assert forall|t: int| g0.valid_sprite(t) implies {
                let s0 = g0.spr(t);
                let s1 = #[trigger] self.spr(t);
                &&& s1.bitmap == s0.bitmap
                &&& s1.x == s0.x
                &&& s1.y == s0.y
                &&& s1.z == s0.z
                &&& s1.texture == g0.synced_texture(t)
            } by {
                assert(self.spr(t) == g1.spr(t));
                assert(g1.spr(t).bitmap == g0.spr(t).bitmap && g1.spr(t).x == g0.spr(t).x
                    && g1.spr(t).y == g0.spr(t).y && g1.spr(t).z == g0.spr(t).z && g1.spr(
                    t,
                ).texture == g0.synced_texture(t));
            }
            assert forall|i: int| self.valid_bitmap(i) implies (#[trigger] self.bmp(i)).wf() by {
                assert(g0.bmp(i).wf());
            }
            assert forall|s2: int|
                self.valid_sprite(s2) implies ((#[trigger] self.spr(s2)).bitmap matches Some(b)
                ==> self.valid_bitmap(b)) by {
                assert(self.spr(s2) == g1.spr(s2));
                assert(g1.spr(s2).bitmap == g0.spr(s2).bitmap);
                assert(g0.spr(s2).bitmap matches Some(b) ==> g0.valid_bitmap(b));
            }
            assert(Graphics::sync_rel(g0, *self));
        }
    }

    /// Whether `c` is the draw command sprite `c.sprite` calls for: its
    /// cached texture, at its current position and depth.
    pub open spec fn call_matches(self, c: DrawCall) -> bool {
        let s = self.spr(c.sprite as int);
        &&& self.valid_sprite(c.sprite as int)
        &&& s.texture == Some(c.texture@)
        &&& c.x == s.x
        &&& c.y == s.y
        &&& c.z == s.z
    }

    /// What a successful draw pass hands back: one command per registered
    /// sprite, no sprite twice, each command matching its sprite, issued in
    /// ascending depth order with ties broken by registration order.
    pub open spec fn draw_calls_ok(self, calls: Seq<DrawCall>) -> bool {
        &&& calls.len() == self.n_sprites()
        &&& forall|k: int| 0 <= k < calls.len() ==> self.call_matches(#[trigger] calls[k])
        &&& forall|k1: int, k2: int|
            #![trigger calls[k1], calls[k2]]
            0 <= k1 < calls.len() && 0 <= k2 < calls.len() && k1 != k2 ==> calls[k1].sprite
                != calls[k2].sprite
        &&& forall|k1: int, k2: int|
            #![trigger calls[k1], calls[k2]]
            0 <= k1 < k2 < calls.len() ==> draw_before(calls[k1], calls[k2])
    }

    /// One per-frame draw pass. If every registered sprite holds a cached
    /// texture, the result is the full command list in draw order; if any
    /// sprite lacks one (a sprite never given a bitmap, or one whose bitmap
    /// was never synced), the pass fails with `NotRenderable` and issues
    /// nothing. The scene itself is never changed by drawing.
    pub fn draw(&self) -> (r: Result<Vec<DrawCall>, Error>)
        requires
            self.wf(),
        ensures
            match r {
                Ok(calls) => {
                    &&& self.draw_calls_ok(calls@)
                    &&& forall|s: int|
                        self.valid_sprite(s) ==> (#[trigger] self.spr(s)).texture is Some
                },
                Err(e) => {
                    &&& e == Error::NotRenderable
                    &&& exists|s: int|
                        self.valid_sprite(s) && (#[trigger] self.spr(s)).texture is None
                },
            },
    {
        let n = self.sprites.len();
        let mut out: Vec<DrawCall> = Vec::new();
        let mut s: usize = 0;
        while s < n
            invariant
                self.wf(),
                s <= n,
                n == self.sprites@.len(),
                out@.len() == s,
                forall|k: int| 0 <= k < out@.len() ==> self.call_matches(#[trigger] out@[k]),
                forall|k: int| 0 <= k < out@.len() ==> (#[trigger] out@[k]).sprite < s,
                forall|k1: int, k2: int|
                    #![trigger out@[k1], out@[k2]]
                    0 <= k1 < out@.len() && 0 <= k2 < out@.len() && k1 != k2 ==> out@[k1].sprite
                        != out@[k2].sprite,
                forall|k1: int, k2: int|
                    #![trigger out@[k1], out@[k2]]
                    0 <= k1 < k2 < out@.len() ==> draw_before(out@[k1], out@[k2]),
                forall|t: int| 0 <= t < s ==> (#[trigger] self.spr(t)).texture is Some,
            decreases n - s,
        {
            let sp = &self.sprites[s];
            let c = match &sp.texture {
                Some(t) => DrawCall {
                    sprite: s,
                    x: sp.x,
                    y: sp.y,
                    z: sp.z,
                    texture: clone_texture(t),
                },
                None => {
                    proof {
                        assert(self.valid_sprite(s as int) && self.spr(s as int).texture is None);
                    }
                    return Err(Error::NotRenderable);
                },
            };
            proof {
                assert(self.spr(s as int).texture is Some);
                assert(self.call_matches(c));
            }
            let ghost out0 = out@;
            let mut pos: usize = out.len();
            while pos > 0 && draw_before_exec(&c, &out[pos - 1])
                invariant
                    pos <= out@.len(),
                    out@ == out0,
                    forall|k: int|
                        pos <= k < out@.len() ==> draw_before(c, #[trigger] out@[k]),
                    forall|k1: int, k2: int|
                        #![trigger out@[k1], out@[k2]]
                        0 <= k1 < k2 < out@.len() ==> draw_before(out@[k1], out@[k2]),
                decreases pos,
            {
                proof {
                    assert forall|k: int| pos - 1 <= k < out@.len() implies draw_before(
                        c,
                        #[trigger] out@[k],
                    ) by {
                        if k > pos - 1 {
                            assert(draw_before(c, out@[k]));
                        }
                    }
                }
                pos = pos - 1;
            }
            proof {
                if pos > 0 {
                    assert(!draw_before(c, out@[pos - 1]));
                    assert(out@[pos - 1].sprite != c.sprite);
                    lemma_draw_before_total(c, out@[pos - 1]);
                    assert(draw_before(out@[pos - 1], c));
                }
            }
            out.insert(pos, c);
            proof {
                assert(out@ == out0.insert(pos as int, c));
                assert forall|k1: int, k2: int|
                    #![trigger out@[k1], out@[k2]]
                    0 <= k1 < k2 < out@.len() implies draw_before(out@[k1], out@[k2]) by {
                    if k2 < pos {
                        assert(out@[k1] == out0[k1] && out@[k2] == out0[k2]);
                    } else if k1 > pos {
                        assert(out@[k1] == out0[k1 - 1] && out@[k2] == out0[k2 - 1]);
                    } else if k1 < pos && k2 == pos {
                        assert(out@[k1] == out0[k1]);
                        assert(draw_before(out0[pos - 1], c));
                        if k1 < pos - 1 {
                            assert(draw_before(out0[k1], out0[pos - 1]));
                        }
                    } else if k1 < pos && k2 > pos {
                        assert(out@[k1] == out0[k1] && out@[k2] == out0[k2 - 1]);
                    } else {
                        assert(k1 == pos && k2 > pos);
                        assert(out@[k2] == out0[k2 - 1]);
                        assert(draw_before(c, out0[k2 - 1]));
                    }
                }
                assert forall|k: int| 0 <= k < out@.len() implies self.call_matches(
                    #[trigger] out@[k],
                ) && out@[k].sprite < s + 1 by {
                    if k < pos {
                        assert(out@[k] == out0[k]);
                    } else if k > pos {
                        assert(out@[k] == out0[k - 1]);
                    }
                }
                assert forall|k1: int, k2: int|
                    #![trigger out@[k1], out@[k2]]
                    0 <= k1 < out@.len() && 0 <= k2 < out@.len() && k1 != k2 implies out@[k1].sprite
                    != out@[k2].sprite by {
                    let j1: int = if k1 < pos { k1 } else if k1 > pos { k1 - 1 } else { -1 };
                    let j2: int = if k2 < pos { k2 } else if k2 > pos { k2 - 1 } else { -1 };
                    if j1 >= 0 {
                        assert(out@[k1] == out0[j1]);
                        assert(out0[j1].sprite < s);
                    }
                    if j2 >= 0 {
                        assert(out@[k2] == out0[j2]);
                        assert(out0[j2].sprite < s);
                    }
                }
            }
            s = s + 1;
        }
        Ok(out)
    }

    /// What a script's sprite constructor composes: decode image bytes into
    /// a bitmap, move it into the registry, create a sprite referencing it,
    /// and hand back the sprite's handle. A decode failure propagates as the
    /// caller-visible error and leaves the scene untouched.
    pub fn create_sprite_from_bytes(&mut self, bytes: &[u8]) -> (r: Result<SpriteId, Error>)
        requires
            old(self).wf(),
        ensures
            final(self).wf(),
            match r {
                Ok(id) => {
                    &&& crate::bitmap::decoded_rgba(bytes@) matches Some(d) && d.data.len()
                        == d.width * d.height * 4 && final(self).bmp(old(self).n_bitmaps()) == (
                    crate::bitmap::BitmapView {
                        width: d.width,
                        height: d.height,
                        data: d.data,
                        dirty: true,
                    })
                    &&& final(self).n_bitmaps() == old(self).n_bitmaps() + 1
                    &&& final(self).n_sprites() == old(self).n_sprites() + 1
                    &&& id.index() == old(self).n_sprites()
                    &&& final(self).spr(id.index()) == (SpriteView {
                        bitmap: Some(old(self).n_bitmaps()),
                        texture: None,
                        x: 0,
                        y: 0,
                        z: 0,
                    })
                    &&& forall|i: int|
                        old(self).valid_bitmap(i) ==> final(self).bmp(i) == old(self).bmp(i)
                    &&& forall|s: int|
                        old(self).valid_sprite(s) ==> final(self).spr(s) == old(self).spr(s)
                },
                Err(e) => {
                    &&& e == Error::DecodeError
                    &&& !(crate::bitmap::decoded_rgba(bytes@) matches Some(d) && d.data.len()
                        == d.width * d.height * 4)
                    &&& *final(self) == *old(self)
                },
            },
    {
        match Bitmap::decode(bytes) {
            Err(e) => Err(e),
            Ok(bm) => {
                let bid = self.add_bitmap(bm);
                let sid = self.create_sprite(bid);
                Ok(sid)
            },
        }
    }

    /// The width of a sprite's bitmap, or `NoBitmap` for a sprite without
    /// one.
    pub fn sprite_width(&self, id: SpriteId) -> (r: Result<u32, Error>)
        requires
            self.wf(),
            self.valid_sprite(id.index()),
        ensures
            match r {
                Ok(w) => self.spr(id.index()).bitmap matches Some(b) && w == self.bmp(b).width,
                Err(e) => e == Error::NoBitmap && self.spr(id.index()).bitmap is None,
            },
    {
        match self.sprites[id.idx].bitmap {
            Some(b) => Ok(self.bitmaps[b].width()),
            None => Err(Error::NoBitmap),
        }
    }

    /// The height of a sprite's bitmap, or `NoBitmap` for a sprite without
    /// one.
    pub fn sprite_height(&self, id: SpriteId) -> (r: Result<u32, Error>)
        requires
            self.wf(),
            self.valid_sprite(id.index()),
        ensures
            match r {
                Ok(h) => self.spr(id.index()).bitmap matches Some(b) && h == self.bmp(b).height,
                Err(e) => e == Error::NoBitmap && self.spr(id.index()).bitmap is None,
            },
    {
        match self.sprites[id.idx].bitmap {
            Some(b) => Ok(self.bitmaps[b].height()),
            None => Err(Error::NoBitmap),
        }
    }
}

} // verus!
