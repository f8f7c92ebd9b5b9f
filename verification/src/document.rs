//! The parsed, read-only map document that the world build walks: ordered
//! tile layers over a grid, tilesets with per-tile metadata, and object
//! layers of typed rectangles. Coordinates and sizes are whole world units.

use vstd::prelude::*;
use crate::anim::Frame;
use crate::props::Prop;
use crate::props::spec_get_int;
use crate::props::spec_get_object;
use crate::props::get_int_of;
use crate::props::get_object_of;

verus! {

/// Largest grid dimension a document may declare, in tiles.
pub const MAX_MAP_DIM: u32 = 32768;

/// Largest cell size a document may declare, in world units.
pub const MAX_TILE_DIM: u32 = 65536;

/// Largest magnitude of a declared coordinate or size, in world units.
pub const MAX_COORD: i64 = 0x4000_0000;

/// An axis-aligned shape attached to an object or a collision entry.
#[derive(Clone, Copy, PartialEq, Eq, Debug)]
pub enum Shape {
    /// A rectangle of the given size, anchored at the owner's position.
    Rect { width: i64, height: i64 },
    /// Any non-rectangular shape; the build skips these.
    Other,
}

impl Shape {
    /// Bounded, non-negative dimensions.
    pub open spec fn wf(&self) -> bool {
        match *self {
            Shape::Rect { width, height } => 0 <= width <= MAX_COORD && 0 <= height <= MAX_COORD,
            Shape::Other => true,
        }
    }
}

/// One entry of a tile's collision list.
#[derive(Clone, PartialEq, Debug)]
pub struct CollisionObject {
    /// The user-assigned class of the entry; only `"collider"` entries are
    /// turned into live colliders.
    pub kind: String,
    pub x: i64,
    pub y: i64,
    pub shape: Shape,
}

impl CollisionObject {
    pub open spec fn wf(&self) -> bool {
        &&& -MAX_COORD <= self.x <= MAX_COORD
        &&& -MAX_COORD <= self.y <= MAX_COORD
        &&& self.shape.wf()
    }
}

/// One tile of a tileset: its local id, named properties, collision entries
/// and optional animation frames.
#[derive(Clone, PartialEq, Debug)]
pub struct TileDef {
    pub id: u32,
    pub props: Vec<Prop>,
    pub collision: Vec<CollisionObject>,
    pub animation: Option<Vec<Frame>>,
}

impl TileDef {
    pub open spec fn wf(&self) -> bool {
        forall|i: int| 0 <= i < self.collision@.len() ==> (#[trigger] self.collision@[i]).wf()
    }
}

/// A tileset: whether its backing texture loaded, and its tiles.
#[derive(Clone, PartialEq, Debug)]
pub struct Tileset {
    /// A tileset whose texture failed to load earlier is skipped by the world
    /// build instead of failing it.
    pub has_texture: bool,
    pub tiles: Vec<TileDef>,
}

impl Tileset {
    pub open spec fn wf(&self) -> bool {
        forall|i: int| 0 <= i < self.tiles@.len() ==> (#[trigger] self.tiles@[i]).wf()
    }
}

/// First tile of the tileset with the given local id, if any.
pub open spec fn spec_find_tile(tiles: Seq<TileDef>, id: int) -> Option<int>
    decreases tiles.len(),
{
    if tiles.len() == 0 {
        Option::None
    } else if tiles[0].id == id {
        Option::Some(0)
    } else {
        match spec_find_tile(tiles.skip(1), id) {
            Option::Some(j) => Option::Some(j + 1),
            Option::None => Option::None,
        }
    }
}

proof fn lemma_find_tile_hit(tiles: Seq<TileDef>, id: int, i: int)
    requires
        0 <= i < tiles.len(),
        tiles[i].id == id,
        forall|j: int| 0 <= j < i ==> (#[trigger] tiles[j]).id != id,
    ensures
        spec_find_tile(tiles, id) == Option::Some(i),
    decreases i,
{
    if i == 0 {
    } else {
        assert(tiles.skip(1)[i - 1] == tiles[i]);
        assert(forall|j: int| 0 <= j < i - 1 ==> (#[trigger] tiles.skip(1)[j]) == tiles[j + 1]);
        lemma_find_tile_hit(tiles.skip(1), id, i - 1);
    }
}

proof fn lemma_find_tile_miss(tiles: Seq<TileDef>, id: int)
    requires
        forall|j: int| 0 <= j < tiles.len() ==> (#[trigger] tiles[j]).id != id,
    ensures
        spec_find_tile(tiles, id) is None,
    decreases tiles.len(),
{
    if tiles.len() == 0 {
    } else {
        assert(forall|j: int|
            0 <= j < tiles.len() - 1 ==> (#[trigger] tiles.skip(1)[j]) == tiles[j + 1]);
        lemma_find_tile_miss(tiles.skip(1), id);
    }
}

impl Tileset {
    /// Looks up a tile by its local id.
    pub fn find_tile(&self, id: u32) -> (r: Option<usize>)
        ensures
            match r {
                Some(i) => spec_find_tile(self.tiles@, id as int) == Option::Some(i as int) && i
                    < self.tiles@.len(),
                None => spec_find_tile(self.tiles@, id as int) is None,
            },
    {
        let mut i: usize = 0;
        while i < self.tiles.len()
            invariant
                0 <= i <= self.tiles@.len(),
                forall|j: int| 0 <= j < i ==> (#[trigger] self.tiles@[j]).id != id,
            decreases self.tiles@.len() - i,
        {
            if self.tiles[i].id == id {
                proof {
                    lemma_find_tile_hit(self.tiles@, id as int, i as int);
                }
                return Some(i);
            }
            i = i + 1;
        }
        proof {
            lemma_find_tile_miss(self.tiles@, id as int);
        }
        None
    }
}

/// A reference from a grid cell into a tileset.
#[derive(Clone, Copy, PartialEq, Eq, Debug)]
pub struct TileRef {
    pub tileset: usize,
    pub id: u32,
    pub flip_h: bool,
    pub flip_v: bool,
    pub flip_d: bool,
}

/// A full-grid sheet of tile references at one depth of the level. The grid
/// is stored row-major in document order: row 0 is the top row.
#[derive(Clone, PartialEq, Debug)]
pub struct TileLayerData {
    pub name: String,
    pub offset_x: i64,
    pub offset_y: i64,
    pub grid: Vec<Option<TileRef>>,
}

/// A freeform, typed, positioned object of an object layer, anchored at its
/// document-space top-left corner.
#[derive(Clone, PartialEq, Debug)]
pub struct MapObject {
    pub id: u32,
    pub name: String,
    /// The user-assigned type tag that the build dispatches on.
    pub kind: String,
    pub x: i64,
    pub y: i64,
    pub shape: Shape,
    pub props: Vec<Prop>,
}

impl MapObject {
    pub open spec fn wf(&self) -> bool {
        &&& -MAX_COORD <= self.x <= MAX_COORD
        &&& -MAX_COORD <= self.y <= MAX_COORD
        &&& self.shape.wf()
    }
}

/// A sparse list of typed objects overlaid on the grid.
#[derive(Clone, PartialEq, Debug)]
pub struct ObjectLayerData {
    pub objects: Vec<MapObject>,
}

/// One layer of the document, in document order.
#[derive(Clone, PartialEq, Debug)]
pub enum Layer {
    Tiles(TileLayerData),
    Objects(ObjectLayerData),
}

/// An already-parsed, read-only level description.
#[derive(Clone, PartialEq, Debug)]
pub struct MapDocument {
    /// Grid size, in tiles.
    pub width: u32,
    pub height: u32,
    /// Cell size, in world units.
    pub tile_width: u32,
    pub tile_height: u32,
    pub tilesets: Vec<Tileset>,
    pub layers: Vec<Layer>,
}

impl MapDocument {
    /// Machine bounds on declared sizes and coordinates, and a grid of the
    /// declared size under every tile layer.
    pub open spec fn wf(&self) -> bool {
        &&& self.width <= MAX_MAP_DIM
        &&& self.height <= MAX_MAP_DIM
        &&& 1 <= self.tile_width <= MAX_TILE_DIM
        &&& 1 <= self.tile_height <= MAX_TILE_DIM
        &&& self.layers@.len() <= 65536
        &&& forall|l: int|
            0 <= l < self.layers@.len() ==> match #[trigger] self.layers@[l] {
                Layer::Tiles(tl) => {
                    &&& tl.grid@.len() == self.width * self.height
                    &&& -MAX_COORD <= tl.offset_x <= MAX_COORD
                    &&& -MAX_COORD <= tl.offset_y <= MAX_COORD
                },
                Layer::Objects(ol) => forall|o: int|
                    0 <= o < ol.objects@.len() ==> (#[trigger] ol.objects@[o]).wf(),
            }
        &&& forall|t: int| 0 <= t < self.tilesets@.len() ==> (#[trigger] self.tilesets@[t]).wf()
    }

    /// The document cell that the engine tile position `(x, y)` of a tile
    /// layer reads: the document stores rows top-down, the engine counts them
    /// bottom-up.
    pub open spec fn cell(&self, tl: TileLayerData, x: int, y: int) -> Option<TileRef>
        recommends
            0 <= x < self.width,
            0 <= y < self.height,
    {
        tl.grid@[(self.height - 1 - y) * self.width + x]
    }
}

/// The tile's `epoch` property.
pub fn get_int_prop(tile: &TileDef, name: &str) -> (r: Option<i32>)
    ensures
        r == spec_get_int(tile.props@, name@),
{
    get_int_of(&tile.props, name)
}

/// The declared decimal amount of a tile property, as its raw bit pattern.
pub fn get_float_prop(tile: &TileDef, name: &str) -> (r: Option<u32>)
    ensures
        r == crate::props::spec_get_decimal(tile.props@, name@),
{
    crate::props::get_decimal_of(&tile.props, name)
}

/// The destination object that a teleporter object declares through its
/// `dst` property.
pub fn get_teleporter_dst(obj: &MapObject) -> (r: Option<u32>)
    ensures
        r == spec_get_object(obj.props@, "dst"@),
{
    get_object_of(&obj.props, "dst")
}

} // verus!
