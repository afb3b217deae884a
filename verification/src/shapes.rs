//! The shape store: drawable blocks, their staged builder, and the shared
//! point-buffer collection.
//!
//! A [`Block`] never owns its geometry.  The point buffer lives in a shared
//! append-only `Vec<Vec<Fx>>` owned by the caller; the block holds the stable
//! index of its buffer in that collection.  The buffer layout is keyed by
//! [`ShapeKind`]:
//!
//! - `Rect`: `[x, y, width, height]`
//! - `Ellipse`: `[cx, cy, radius_x, radius_y]`
//! - `Circle`: `[cx, cy, radius]`
//! - `Line`: `[x1, y1, x2, y2]`
//! - `Polygon`: flattened `(x, y)` pairs, closed implicitly

use vstd::prelude::*;

use crate::fx::Fx;

verus! {

/// The closed set of drawable shape kinds.  `Unset` is the uninitialized
/// sentinel of the builder; a finished block never carries it.
#[derive(Clone, Copy, Debug, PartialEq, Eq, Structural)]
pub enum ShapeKind {
    Rect,
    Polygon,
    Line,
    Ellipse,
    Circle,
    Unset,
}

/// An RGBA colour; each channel is a fixed-point fraction where
/// `Fx(1000)` is full intensity.
#[derive(Clone, Copy, Debug, PartialEq, Eq, Structural)]
pub struct Color {
    pub r: Fx,
    pub g: Fx,
    pub b: Fx,
    pub a: Fx,
}

/// A fatal scene-configuration or scene-parse failure.  The core never
/// recovers from one of these: the caller is expected to stop the run.
#[derive(Clone, Copy, Debug, PartialEq, Eq, Structural)]
pub enum SceneError {
    /// `build` was called before any shape kind was set.
    MissingKind,
    /// `build` was called before a point buffer was registered.
    MissingPoints,
    /// A scene line opened a block with an unrecognized shape marker.
    InvalidShape,
    /// A numeric field of a scene line is not a decimal number.
    MalformedNumber,
    /// A numeric field of a scene line does not fit the coordinate band.
    NumberOutOfRange,
    /// A colour line supplied fewer than four channels.
    ShortColor,
    /// A velocity line supplied fewer than two components.
    ShortVelocity,
}

/// A drawable entity: a colour, a shape kind, a velocity, and the index of
/// its point buffer in the shared collection.
#[derive(Clone, Copy, Debug)]
pub struct Block {
    /// Anchor offset added to the buffer's x coordinates when drawing.
    pub x: Fx,
    /// Anchor offset added to the buffer's y coordinates when drawing.
    pub y: Fx,
    pub color: Color,
    pub shape: ShapeKind,
    /// Position of this block's point buffer in the shared collection.
    pub index: usize,
    /// Velocity, board units per second (fixed-point).
    pub dx: Fx,
    pub dy: Fx,
}

/// Staged construction of a [`Block`]: the shape kind and a registered point
/// buffer are both required before [`BlockBuilder::build`] succeeds.
#[derive(Clone, Copy, Debug)]
pub struct BlockBuilder {
    pub block: Block,
    pub index: Option<usize>,
}

impl BlockBuilder {
    /// The value that [`BlockBuilder::empty`] returns.
    pub open spec fn empty_spec() -> BlockBuilder {
        BlockBuilder {
            block: Block {
                x: Fx(0),
                y: Fx(0),
                color: Color { r: Fx(0), g: Fx(0), b: Fx(0), a: Fx(1000) },
                shape: ShapeKind::Unset,
                index: 0,
                dx: Fx(0),
                dy: Fx(0),
            },
            index: None,
        }
    }

    /// The fresh builder a scene marker for kind `k` opens.
    pub open spec fn marker_builder(k: ShapeKind) -> BlockBuilder {
        BlockBuilder {
            block: Block { shape: k, ..BlockBuilder::empty_spec().block },
            ..BlockBuilder::empty_spec()
        }
    }

    /// A fully uninitialized builder: sentinel shape kind, black colour,
    /// no registered points.
    pub fn empty() -> (r: BlockBuilder)
        ensures
            r == BlockBuilder::empty_spec(),
    {
        BlockBuilder {
            block: Block {
                x: Fx(0),
                y: Fx(0),
                color: Color { r: Fx(0), g: Fx(0), b: Fx(0), a: Fx(1000) },
                shape: ShapeKind::Unset,
                index: 0,
                dx: Fx(0),
                dy: Fx(0),
            },
            index: None,
        }
    }

    /// The value that [`BlockBuilder::new`] returns.
    pub open spec fn new_spec(s: ShapeKind, x: Fx, y: Fx) -> BlockBuilder {
        BlockBuilder {
            block: Block {
                x,
                y,
                color: Color { r: Fx(1000), g: Fx(1000), b: Fx(1000), a: Fx(1000) },
                shape: s,
                index: 0,
                dx: Fx(0),
                dy: Fx(0),
            },
            index: None,
        }
    }

    /// A builder for the given kind, anchored at `(x, y)`, white.
    pub fn new(s: ShapeKind, x: Fx, y: Fx) -> (r: BlockBuilder)
        ensures
            r == BlockBuilder::new_spec(s, x, y),
    {
        BlockBuilder {
            block: Block {
                x,
                y,
                color: Color { r: Fx(1000), g: Fx(1000), b: Fx(1000), a: Fx(1000) },
                shape: s,
                index: 0,
                dx: Fx(0),
                dy: Fx(0),
            },
            index: None,
        }
    }

    pub fn rect(x: Fx, y: Fx) -> (r: BlockBuilder)
        ensures
            r == BlockBuilder::new_spec(ShapeKind::Rect, x, y),
    {
        BlockBuilder::new(ShapeKind::Rect, x, y)
    }

    pub fn line(x: Fx, y: Fx) -> (r: BlockBuilder)
        ensures
            r == BlockBuilder::new_spec(ShapeKind::Line, x, y),
    {
        BlockBuilder::new(ShapeKind::Line, x, y)
    }

    pub fn circle(x: Fx, y: Fx) -> (r: BlockBuilder)
        ensures
            r == BlockBuilder::new_spec(ShapeKind::Circle, x, y),
    {
        BlockBuilder::new(ShapeKind::Circle, x, y)
    }

    pub fn ellipse(x: Fx, y: Fx) -> (r: BlockBuilder)
        ensures
            r == BlockBuilder::new_spec(ShapeKind::Ellipse, x, y),
    {
        BlockBuilder::new(ShapeKind::Ellipse, x, y)
    }

    pub fn polygon(x: Fx, y: Fx) -> (r: BlockBuilder)
        ensures
            r == BlockBuilder::new_spec(ShapeKind::Polygon, x, y),
    {
        BlockBuilder::new(ShapeKind::Polygon, x, y)
    }

    /// The shape kind that a scene marker byte opens, if any.
    pub open spec fn kind_of_marker(m: u8) -> Option<ShapeKind> {
        if m == 82u8 {  // 'R'
            Some(ShapeKind::Rect)
        } else if m == 69u8 {  // 'E'
            Some(ShapeKind::Ellipse)
        } else if m == 76u8 {  // 'L'
            Some(ShapeKind::Line)
        } else if m == 80u8 {  // 'P'
            Some(ShapeKind::Polygon)
        } else if m == 67u8 {  // 'C'
            Some(ShapeKind::Circle)
        } else {
            None
        }
    }

    /// A fresh builder for the shape kind named by a scene marker byte
    /// (`R`, `E`, `L`, `P` or `C`); any other byte is an invalid shape.
    pub fn from_marker(m: u8) -> (r: Result<BlockBuilder, SceneError>)
        ensures
            match BlockBuilder::kind_of_marker(m) {
                Some(k) => r == Result::<BlockBuilder, SceneError>::Ok(
                    BlockBuilder::marker_builder(k),
                ),
                None => r == Result::<BlockBuilder, SceneError>::Err(SceneError::InvalidShape),
            },
    {
        let kind = if m == 82u8 {
            ShapeKind::Rect
        } else if m == 69u8 {
            ShapeKind::Ellipse
        } else if m == 76u8 {
            ShapeKind::Line
        } else if m == 80u8 {
            ShapeKind::Polygon
        } else if m == 67u8 {
            ShapeKind::Circle
        } else {
            return Err(SceneError::InvalidShape);
        };
        let mut b = BlockBuilder::empty();
        b.block.shape = kind;
        Ok(b)
    }

    /// Sets the colour from the first four values of `color`.
    pub fn color(self, color: &Vec<Fx>) -> (r: BlockBuilder)
        requires
            color@.len() >= 4,
        ensures
            r == (BlockBuilder {
                block: Block {
                    color: Color {
                        r: color@[0],
                        g: color@[1],
                        b: color@[2],
                        a: color@[3],
                    },
                    ..self.block
                },
                ..self
            }),
    {
        BlockBuilder {
            block: Block {
                color: Color { r: color[0], g: color[1], b: color[2], a: color[3] },
                ..self.block
            },
            ..self
        }
    }

    /// Sets the velocity from the first two values of `v`.
    pub fn velocity(self, v: &Vec<Fx>) -> (r: BlockBuilder)
        requires
            v@.len() >= 2,
        ensures
            r == (BlockBuilder {
                block: Block { dx: v@[0], dy: v@[1], ..self.block },
                ..self
            }),
    {
        BlockBuilder {
            block: Block { dx: v[0], dy: v[1], ..self.block },
            ..self
        }
    }

    /// Registers `points` as a new buffer at the end of the shared
    /// collection and records its stable index.
    pub fn points(self, points: Vec<Fx>, points_list: &mut Vec<Vec<Fx>>) -> (r: BlockBuilder)
        ensures
            final(points_list)@ == old(points_list)@.push(points),
            r == (BlockBuilder { index: Some(old(points_list)@.len() as usize), ..self }),
    {
        let idx = points_list.len();
        points_list.push(points);
        BlockBuilder { index: Some(idx), ..self }
    }

    /// Whether `build` would succeed.
    pub open spec fn complete(self) -> bool {
        self.block.shape != ShapeKind::Unset && self.index is Some
    }

    /// Produces the block, failing fast when the shape kind was never set
    /// or no point buffer was registered.
    pub fn build(self) -> (r: Result<Block, SceneError>)
        ensures
            r == self.build_spec(),
    {
        if matches!(self.block.shape, ShapeKind::Unset) {
            return Err(SceneError::MissingKind);
        }
        match self.index {
            Option::None => Err(SceneError::MissingPoints),
            Option::Some(idx) => Ok(Block { index: idx, ..self.block }),
        }
    }

    /// What `build` returns.
    pub open spec fn build_spec(self) -> Result<Block, SceneError> {
        if self.block.shape == ShapeKind::Unset {
            Err(SceneError::MissingKind)
        } else if self.index is None {
            Err(SceneError::MissingPoints)
        } else {
            Ok(Block { index: self.index->0, ..self.block })
        }
    }
}

/// Appends a point buffer to the shared collection and returns its
/// stable index.  Buffers are never removed: an index stays valid for
/// the rest of the run.
pub fn register_points(points: Vec<Fx>, points_list: &mut Vec<Vec<Fx>>) -> (idx: usize)
    ensures
        final(points_list)@ == old(points_list)@.push(points),
        idx == old(points_list)@.len(),
{
    let idx = points_list.len();
    points_list.push(points);
    idx
}

/// Opaque black, full alpha.
pub fn black() -> (c: Color)
    ensures
        c == (Color { r: Fx(0), g: Fx(0), b: Fx(0), a: Fx(1000) }),
{
    Color { r: Fx(0), g: Fx(0), b: Fx(0), a: Fx(1000) }
}

/// Opaque green, full alpha.
pub fn green() -> (c: Color)
    ensures
        c == (Color { r: Fx(0), g: Fx(1000), b: Fx(0), a: Fx(1000) }),
{
    Color { r: Fx(0), g: Fx(1000), b: Fx(0), a: Fx(1000) }
}

/// Opaque red, full alpha.
pub fn red() -> (c: Color)
    ensures
        c == (Color { r: Fx(1000), g: Fx(0), b: Fx(0), a: Fx(1000) }),
{
    Color { r: Fx(1000), g: Fx(0), b: Fx(0), a: Fx(1000) }
}

impl Block {
    /// A block of the given kind built directly from its parts, its
    /// point buffer registered at the end of the shared collection.
    pub fn new(
        points: Vec<Fx>,
        color: Color,
        dx: Fx,
        dy: Fx,
        shape: ShapeKind,
        point_list: &mut Vec<Vec<Fx>>,
    ) -> (r: Block)
        ensures
            final(point_list)@ == old(point_list)@.push(points),
            r == (Block {
                x: Fx(0),
                y: Fx(0),
                color,
                shape,
                index: old(point_list)@.len() as usize,
                dx,
                dy,
            }),
    {
        let idx = point_list.len();
        point_list.push(points);
        Block { x: Fx(0), y: Fx(0), color, shape, index: idx, dx, dy }
    }

    /// The block's velocity components.
    pub fn get_movement_rate(&self) -> (r: (Fx, Fx))
        ensures
            r == (self.dx, self.dy),
    {
        (self.dx, self.dy)
    }

    /// Moves the block's anchor to `(x, y)`.
    pub fn set_shape_position(&mut self, x: Fx, y: Fx)
        ensures
            *final(self) == (Block { x, y, ..*old(self) }),
    {
        self.x = x;
        self.y = y;
    }

    /// A copy of this block's point buffer.
    pub fn get_shape_info(&self, point_list: &Vec<Vec<Fx>>) -> (r: Vec<Fx>)
        requires
            self.index < point_list@.len(),
        ensures
            r@ == point_list@[self.index as int]@,
    {
        let buf = &point_list[self.index];
        let mut out: Vec<Fx> = Vec::new();
        let mut i: usize = 0;
        while i < buf.len()
            invariant
                i <= buf@.len(),
                out@ == buf@.take(i as int),
            decreases buf@.len() - i,
        {
            out.push(buf[i]);
            proof {
                assert(out@ == buf@.take(i + 1 as int));
            }
            i = i + 1;
        }
        proof {
            assert(buf@.take(buf@.len() as int) == buf@);
        }
        out
    }

    pub fn get_shape_kind(&self) -> (r: ShapeKind)
        ensures
            r == self.shape,
    {
        self.shape
    }

    pub fn get_index(&self) -> (r: usize)
        ensures
            r == self.index,
    {
        self.index
    }
}

} // verus!
