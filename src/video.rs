//! Video memory: the tile framebuffer (also read as a pixel framebuffer),
//! the tile pattern map and the sprites.
use vstd::prelude::*;

verus! {

/// Width of the display in pixels.
pub const FRAME_WIDTH: u32 = 640;
/// Height of the display in pixels.
pub const FRAME_HEIGHT: u32 = 480;
/// A tile is TILE_WIDTH x TILE_WIDTH pixels.
pub const TILE_WIDTH: u32 = 8;
/// Bytes in one tile pattern (two per pixel).
pub const TILE_SIZE: u32 = 128;
/// A sprite is SPRITE_WIDTH x SPRITE_WIDTH pixels.
pub const SPRITE_WIDTH: u32 = 32;
/// Bytes in one sprite (two per pixel).
pub const SPRITE_SIZE: u32 = 2048;

/// The framebuffer: one byte per entry, read by tile coordinates or as
/// little-endian 16-bit pixels.
pub struct FrameBuffer {
    pub width_pixels: u32,
    pub height_pixels: u32,
    /// Number of tiles in the x direction.
    pub width_tiles: u32,
    /// Number of tiles in the y direction.
    pub height_tiles: u32,
    pub tile_ptrs: Vec<u8>,
}

/// An 8x8 tile of 16-bit pixels.
pub struct Tile {
    pub pixels: Vec<u8>,
}

/// The tile patterns.
pub struct TileMap {
    pub tiles: Vec<Tile>,
}

/// A 32x32 sprite of 16-bit pixels with its position.
pub struct Sprite {
    pub x: (u8, u8),
    pub y: (u8, u8),
    pub pixels: Vec<u8>,
}

/// All sprites.
pub struct SpriteMap {
    pub sprites: Vec<Sprite>,
}

impl FrameBuffer {
    /// The bytes of the framebuffer.
    pub open spec fn bytes(&self) -> Seq<u8> {
        self.tile_ptrs@
    }

    pub open spec fn wf(&self) -> bool {
        &&& self.bytes().len() == self.width_pixels * self.height_pixels
        &&& self.width_tiles == self.width_pixels / TILE_WIDTH
        &&& self.height_tiles == self.height_pixels / TILE_WIDTH
    }

    pub fn new(width_pixels: u32, height_pixels: u32) -> (r: FrameBuffer)
        requires
            width_pixels * height_pixels <= usize::MAX,
        ensures
            r.wf(),
            r.width_pixels == width_pixels,
            r.height_pixels == height_pixels,
            r.bytes() == Seq::new((width_pixels * height_pixels) as nat, |i: int| 0u8),
    {
        let n = (width_pixels as u64 * height_pixels as u64) as usize;
        let tile_ptrs: Vec<u8> = vec![0u8; n];
        let r = FrameBuffer {
            width_pixels,
            height_pixels,
            width_tiles: width_pixels / TILE_WIDTH,
            height_tiles: height_pixels / TILE_WIDTH,
            tile_ptrs,
        };
        assert(r.bytes() =~= Seq::new((width_pixels * height_pixels) as nat, |i: int| 0u8));
        r
    }

    /// Sets byte `i` of the framebuffer.
    pub fn set_tile_pair(&mut self, i: u32, tile_pair_value: u8)
        requires
            i < old(self).bytes().len(),
        ensures
            final(self).bytes() == old(self).bytes().update(i as int, tile_pair_value),
            final(self).width_pixels == old(self).width_pixels,
            final(self).height_pixels == old(self).height_pixels,
            final(self).width_tiles == old(self).width_tiles,
            final(self).height_tiles == old(self).height_tiles,
    {
        self.tile_ptrs.set(i as usize, tile_pair_value);
    }

    /// Byte `i` of the framebuffer.
    pub fn get_tile_pair(&self, i: u32) -> (r: u8)
        requires
            i < self.bytes().len(),
        ensures
            r == self.bytes()[i as int],
    {
        self.tile_ptrs[i as usize]
    }

    /// The 16-bit pixel at (x, y); pixels are laid out in rows of
    /// `width_pixels / 2`.
    pub fn get_pixel(&self, x: u32, y: u32) -> (r: u16)
        requires
            x < self.width_pixels,
            y < self.height_pixels,
            2 * (x + y * (self.width_pixels / 2)) + 1 < self.bytes().len(),
        ensures
            ({
                let idx = x + y * (self.width_pixels / 2);
                r as int == self.bytes()[2 * idx + 1] * 256 + self.bytes()[2 * idx]
            }),
    {
        let half = (self.width_pixels / 2) as u64;
        assert(y * half <= 0xFFFF_FFFF * 0xFFFF_FFFF) by (nonlinear_arith)
            requires y <= 0xFFFF_FFFF, half <= 0xFFFF_FFFF;
        let idx64 = x as u64 + y as u64 * half;
        assert(idx64 == x + y * (self.width_pixels / 2));
        assert(2 * idx64 + 1 < self.tile_ptrs.len());
        let idx = idx64 as usize;
        let hi = self.tile_ptrs[2 * idx + 1];
        let lo = self.tile_ptrs[2 * idx];
        (hi as u16) * 256 + (lo as u16)
    }

    /// The tile entry at tile coordinates (x, y).
    pub fn get_tile(&self, x: u32, y: u32) -> (r: u8)
        requires
            x < self.width_tiles,
            y < self.height_tiles,
            x + y * self.width_tiles < self.bytes().len(),
        ensures
            r == self.bytes()[x + y * self.width_tiles],
    {
        let w = self.width_tiles as u64;
        assert(y * w <= 0xFFFF_FFFF * 0xFFFF_FFFF) by (nonlinear_arith)
            requires y <= 0xFFFF_FFFF, w <= 0xFFFF_FFFF;
        let idx64 = x as u64 + y as u64 * w;
        assert(idx64 == x + y * self.width_tiles);
        assert(idx64 < self.tile_ptrs.len());
        let idx = idx64 as usize;
        self.tile_ptrs[idx]
    }
}

impl Tile {
    /// A tile whose pixels are all zero.
    pub fn black() -> (r: Tile)
        ensures
            r.pixels@ == Seq::new(TILE_SIZE as nat, |i: int| 0u8),
    {
        let r = Tile { pixels: vec![0u8; TILE_SIZE as usize] };
        assert(r.pixels@ =~= Seq::new(TILE_SIZE as nat, |i: int| 0u8));
        r
    }

    /// A tile whose pixel bytes are all 0xFF.
    pub fn white() -> (r: Tile)
        ensures
            r.pixels@ == Seq::new(TILE_SIZE as nat, |i: int| 0xFFu8),
    {
        let r = Tile { pixels: vec![0xFFu8; TILE_SIZE as usize] };
        assert(r.pixels@ =~= Seq::new(TILE_SIZE as nat, |i: int| 0xFFu8));
        r
    }
}

impl TileMap {
    pub open spec fn wf(&self) -> bool {
        forall|t: int| 0 <= t < self.tiles@.len() ==> #[trigger] self.tiles@[t].pixels@.len() == TILE_SIZE
    }

    /// Number of bytes addressable in the map.
    pub open spec fn size(&self) -> int {
        self.tiles@.len() * TILE_SIZE
    }

    /// Byte `addr` of the map.
    pub open spec fn byte(&self, addr: int) -> u8 {
        self.tiles@[addr / TILE_SIZE as int].pixels@[addr % TILE_SIZE as int]
    }

    /// A map of `size / TILE_SIZE` black tiles.
    pub fn new(size: u32) -> (r: TileMap)
        ensures
            r.wf(),
            r.tiles@.len() == size / TILE_SIZE,
            forall|a: int| 0 <= a < r.size() ==> r.byte(a) == 0,
    {
        let n = size / TILE_SIZE;
        let mut tiles: Vec<Tile> = Vec::new();
        let mut i: u32 = 0;
        while i < n
            invariant
                i <= n,
                tiles@.len() == i,
                forall|t: int| 0 <= t < i ==> #[trigger] tiles@[t].pixels@ == Seq::new(TILE_SIZE as nat, |j: int| 0u8),
            decreases n - i,
        {
            tiles.push(Tile::black());
            i += 1;
        }
        let r = TileMap { tiles };
        assert forall|a: int| 0 <= a < r.size() implies r.byte(a) == 0 by {
            assert(0 <= a / 128 < r.tiles@.len()) by (nonlinear_arith)
                requires 0 <= a < r.tiles@.len() * 128;
        }
        r
    }

    pub fn get_tile_byte(&self, addr: u32) -> (r: u8)
        requires
            self.wf(),
            addr < self.size(),
        ensures
            r == self.byte(addr as int),
    {
        assert(addr / TILE_SIZE < self.tiles@.len()) by (nonlinear_arith)
            requires addr < self.tiles@.len() * 128;
        self.tiles[(addr / TILE_SIZE) as usize].pixels[(addr % TILE_SIZE) as usize]
    }

    pub fn set_tile_byte(&mut self, addr: u32, data: u8)
        requires
            old(self).wf(),
            addr < old(self).size(),
        ensures
            final(self).wf(),
            final(self).tiles@.len() == old(self).tiles@.len(),
            forall|a: int| 0 <= a < final(self).size() ==> #[trigger] final(self).byte(a) == if a == addr {
                data
            } else {
                old(self).byte(a)
            },
    {
        assert(addr / TILE_SIZE < self.tiles@.len()) by (nonlinear_arith)
            requires addr < self.tiles@.len() * 128;
        let t = (addr / TILE_SIZE) as usize;
        let o = (addr % TILE_SIZE) as usize;
        self.tiles[t].pixels.set(o, data);
        assert forall|a: int| 0 <= a < self.size() implies #[trigger] self.byte(a) == if a == addr {
            data
        } else {
            old(self).byte(a)
        } by {
            assert(0 <= a / 128 < self.tiles@.len()) by (nonlinear_arith)
                requires 0 <= a < self.tiles@.len() * 128;
            if a / 128 == t as int && a % 128 == o as int {
                assert(a == addr) by (nonlinear_arith)
                    requires a / 128 == addr / 128, a % 128 == addr % 128;
            }
        }
    }
}

impl Sprite {
    /// A sprite at (0, 0) whose pixel bytes are all 0xFF (transparent).
    pub fn invisible() -> (r: Sprite)
        ensures
            r.x == (0u8, 0u8),
            r.y == (0u8, 0u8),
            r.pixels@ == Seq::new(SPRITE_SIZE as nat, |i: int| 0xFFu8),
    {
        let r = Sprite { x: (0, 0), y: (0, 0), pixels: vec![0xFFu8; SPRITE_SIZE as usize] };
        assert(r.pixels@ =~= Seq::new(SPRITE_SIZE as nat, |i: int| 0xFFu8));
        r
    }
}

/// Register byte `k` (0 to 3) of a sprite: x low, x high, y low, y high.
pub open spec fn sprite_reg(sp: Sprite, k: int) -> u8 {
    if k == 0 {
        sp.x.0
    } else if k == 1 {
        sp.x.1
    } else if k == 2 {
        sp.y.0
    } else {
        sp.y.1
    }
}

impl SpriteMap {
    pub open spec fn wf(&self) -> bool {
        forall|t: int| 0 <= t < self.sprites@.len() ==> #[trigger] self.sprites@[t].pixels@.len() == SPRITE_SIZE
    }

    /// Number of pixel bytes addressable in the map.
    pub open spec fn size(&self) -> int {
        self.sprites@.len() * SPRITE_SIZE
    }

    /// Pixel byte `addr` of the map.
    pub open spec fn byte(&self, addr: int) -> u8 {
        self.sprites@[addr / SPRITE_SIZE as int].pixels@[addr % SPRITE_SIZE as int]
    }

    /// Register byte `addr` (four per sprite).
    pub open spec fn reg(&self, addr: int) -> u8 {
        sprite_reg(self.sprites@[addr / 4], addr % 4)
    }

    /// A map of `size / SPRITE_SIZE` invisible sprites.
    pub fn new(size: u32) -> (r: SpriteMap)
        ensures
            r.wf(),
            r.sprites@.len() == size / SPRITE_SIZE,
            forall|a: int| 0 <= a < r.size() ==> r.byte(a) == 0xFF,
            forall|a: int| 0 <= a < 4 * r.sprites@.len() ==> r.reg(a) == 0,
    {
        let n = size / SPRITE_SIZE;
        let mut sprites: Vec<Sprite> = Vec::new();
        let mut i: u32 = 0;
        while i < n
            invariant
                i <= n,
                sprites@.len() == i,
                forall|t: int| 0 <= t < i ==> (#[trigger] sprites@[t]).pixels@ == Seq::new(SPRITE_SIZE as nat, |j: int| 0xFFu8)
                    && sprites@[t].x == (0u8, 0u8) && sprites@[t].y == (0u8, 0u8),
            decreases n - i,
        {
            sprites.push(Sprite::invisible());
            i += 1;
        }
        let r = SpriteMap { sprites };
        assert forall|a: int| 0 <= a < r.size() implies r.byte(a) == 0xFF by {
            assert(0 <= a / 2048 < r.sprites@.len()) by (nonlinear_arith)
                requires 0 <= a < r.sprites@.len() * 2048;
        }
        r
    }

    pub fn get_sprite_byte(&self, addr: u32) -> (r: u8)
        requires
            self.wf(),
            addr < self.size(),
        ensures
            r == self.byte(addr as int),
    {
        assert(addr / SPRITE_SIZE < self.sprites@.len()) by (nonlinear_arith)
            requires addr < self.sprites@.len() * 2048;
        self.sprites[(addr / SPRITE_SIZE) as usize].pixels[(addr % SPRITE_SIZE) as usize]
    }

    pub fn set_sprite_byte(&mut self, addr: u32, data: u8)
        requires
            old(self).wf(),
            addr < old(self).size(),
        ensures
            final(self).wf(),
            final(self).sprites@.len() == old(self).sprites@.len(),
            forall|a: int| 0 <= a < final(self).size() ==> #[trigger] final(self).byte(a) == if a == addr {
                data
            } else {
                old(self).byte(a)
            },
            forall|a: int| 0 <= a < 4 * final(self).sprites@.len() ==> #[trigger] final(self).reg(a) == old(self).reg(a),
    {
        assert(addr / SPRITE_SIZE < self.sprites@.len()) by (nonlinear_arith)
            requires addr < self.sprites@.len() * 2048;
        let t = (addr / SPRITE_SIZE) as usize;
        let o = (addr % SPRITE_SIZE) as usize;
        self.sprites[t].pixels.set(o, data);
        assert forall|a: int| 0 <= a < self.size() implies #[trigger] self.byte(a) == if a == addr {
            data
        } else {
            old(self).byte(a)
        } by {
            assert(0 <= a / 2048 < self.sprites@.len()) by (nonlinear_arith)
                requires 0 <= a < self.sprites@.len() * 2048;
            if a / 2048 == t as int && a % 2048 == o as int {
                assert(a == addr) by (nonlinear_arith)
                    requires a / 2048 == addr / 2048, a % 2048 == addr % 2048;
            }
        }
    }

    /// Register byte `addr`: for sprite `addr / 4`, x low, x high, y low or
    /// y high by `addr % 4`.
    pub fn get_sprite_reg(&self, addr: u32) -> (r: u8)
        requires
            addr / 4 < self.sprites@.len(),
        ensures
            r == self.reg(addr as int),
    {
        let sprite = &self.sprites[(addr / 4) as usize];
        let k = addr % 4;
        if k == 0 {
            sprite.x.0
        } else if k == 1 {
            sprite.x.1
        } else if k == 2 {
            sprite.y.0
        } else {
            sprite.y.1
        }
    }

    pub fn set_sprite_reg(&mut self, addr: u32, data: u8)
        requires
            old(self).wf(),
            addr / 4 < old(self).sprites@.len(),
        ensures
            final(self).wf(),
            final(self).sprites@.len() == old(self).sprites@.len(),
            forall|a: int| 0 <= a < 4 * final(self).sprites@.len() ==> #[trigger] final(self).reg(a) == if a == addr {
                data
            } else {
                old(self).reg(a)
            },
            forall|a: int| 0 <= a < final(self).size() ==> #[trigger] final(self).byte(a) == old(self).byte(a),
    {
        let t = (addr / 4) as usize;
        let k = addr % 4;
        if k == 0 {
            self.sprites[t].x.0 = data;
        } else if k == 1 {
            self.sprites[t].x.1 = data;
        } else if k == 2 {
            self.sprites[t].y.0 = data;
        } else {
            self.sprites[t].y.1 = data;
        }
        assert forall|a: int| 0 <= a < 4 * self.sprites@.len() implies #[trigger] self.reg(a) == if a == addr {
            data
        } else {
            old(self).reg(a)
        } by {
            if a / 4 == t as int && a % 4 == k as int {
                assert(a == addr);
            }
        }
        assert forall|a: int| 0 <= a < self.size() implies #[trigger] self.byte(a) == old(self).byte(a) by {
            assert(0 <= a / 2048 < self.sprites@.len()) by (nonlinear_arith)
                requires 0 <= a < self.sprites@.len() * 2048;
        }
    }
}

/// An RGBA colour.
#[derive(Clone, Copy, Debug, PartialEq, Eq, Structural)]
pub struct Rgba {
    pub red: u8,
    pub green: u8,
    pub blue: u8,
    pub alpha: u8,
}

/// The colour of a pixel stored as two bytes: red in the low nibble of
/// the first, green in its high nibble, blue in the low nibble of the
/// second, each scaled by 16; opaque.
pub open spec fn color_spec(low: u8, high: u8) -> Rgba {
    Rgba {
        red: ((low % 16) * 16) as u8,
        green: ((low / 16) * 16) as u8,
        blue: ((high % 16) * 16) as u8,
        alpha: 255,
    }
}

pub fn pixel_color(low: u8, high: u8) -> (r: Rgba)
    ensures
        r == color_spec(low, high),
{
    Rgba { red: (low % 16) * 16, green: (low / 16) * 16, blue: (high % 16) * 16, alpha: 255 }
}

/// A sprite pixel is transparent when the high nibble of its second byte
/// is all ones.
pub fn is_transparent(high: u8) -> (r: bool)
    ensures
        r == (high / 16 == 15),
{
    high / 16 == 15
}

/// The frame counter register after one more frame: a little-endian
/// 32-bit count that wraps.
pub fn next_frame(f: (u8, u8, u8, u8)) -> (r: (u8, u8, u8, u8))
    ensures
        r.0 + 256 * r.1 + 65536 * r.2 + 16777216 * r.3 == (f.0 + 256 * f.1 + 65536 * f.2 + 16777216 * f.3 + 1)
            % 4294967296,
{
    if f.0 < 255 {
        (f.0 + 1, f.1, f.2, f.3)
    } else if f.1 < 255 {
        (0, f.1 + 1, f.2, f.3)
    } else if f.2 < 255 {
        (0, 0, f.2 + 1, f.3)
    } else if f.3 < 255 {
        (0, 0, 0, f.3 + 1)
    } else {
        (0, 0, 0, 0)
    }
}

/// Where logical coordinate `pos`, moved by `scroll`, falls on a screen of
/// `size` pixels, wrapping around.
pub fn wrap_scroll(pos: u32, scroll: u16, size: u32) -> (r: u32)
    requires
        size > 0,
    ensures
        r == (pos as int + scroll as int) % (size as int),
{
    ((pos as u64 + scroll as u64) % size as u64) as u32
}

} // verus!
