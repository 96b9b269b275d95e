//! The discrete decisions of a render pass: which primitive a ray hits first,
//! and the order in which pixels are produced.
//!
//! Distances enter as ordered keys: any encoding of the hit distances whose
//! integer order is their numeric order (for non-negative IEEE doubles, their
//! bit patterns), with one key, `miss`, standing for "no intersection".
use vstd::prelude::*;

verus! {

/// `i` is the index of the nearest hit among `keys`: its key is below `miss`, no key is
/// smaller, and every key before it is strictly larger (first occurrence wins ties).
pub open spec fn is_nearest(keys: Seq<u64>, miss: u64, i: int) -> bool {
    &&& 0 <= i < keys.len()
    &&& keys[i] < miss
    &&& forall|j: int| 0 <= j < keys.len() ==> keys[i] <= #[trigger] keys[j]
    &&& forall|j: int| 0 <= j < i ==> keys[i] < #[trigger] keys[j]
}

/// No key is below `miss`: the ray hits nothing.
pub open spec fn all_miss(keys: Seq<u64>, miss: u64) -> bool {
    forall|j: int| 0 <= j < keys.len() ==> miss <= #[trigger] keys[j]
}

/// Nearest-hit search over the distance keys of a scene's primitives, in scene order.
/// Returns the index of the first primitive with the smallest key below `miss`, or `None`
/// when every key is `miss` or above.
pub fn nearest_index(keys: &Vec<u64>, miss: u64) -> (r: Option<usize>)
    ensures
        r is None <==> all_miss(keys@, miss),
        r matches Some(i) ==> is_nearest(keys@, miss, i as int),
{
    let mut nearest: Option<usize> = None;
    let mut closest: u64 = miss;
    let mut i: usize = 0;
    while i < keys.len()
        invariant
            0 <= i <= keys@.len(),
            nearest is None ==> closest == miss && all_miss(keys@.subrange(0, i as int), miss),
            nearest matches Some(k) ==> k < i && closest == keys@[k as int]
                && is_nearest(keys@.subrange(0, i as int), miss, k as int),
        decreases keys@.len() - i,
    {
        let key = keys[i];
        if key < closest {
            closest = key;
            nearest = Some(i);
        }
        i = i + 1;
    }
    assert(keys@.subrange(0, keys@.len() as int) =~= keys@);
    nearest
}

/// How a pixel is coloured, decided from its primary ray and its shadow ray.
#[derive(Clone, Copy, Debug, PartialEq, Eq, Structural)]
pub enum Shading {
    /// The primary ray hits nothing: the pixel is black.
    Background,
    /// The primary ray hits the primitive at this index, and the way to the light is
    /// blocked: the primitive's base colour, darkened.
    Shadow(usize),
    /// The primary ray hits the primitive at this index, and the light is in view: full
    /// local shading.
    Lit(usize),
}

/// The shading case of a pixel whose primary ray's nearest hit is `primary` and whose
/// shadow ray's nearest hit is `shadow` (the latter is only looked at on a hit).
pub open spec fn shading_of(primary: Option<usize>, shadow: Option<usize>) -> Shading {
    match primary {
        None => Shading::Background,
        Some(i) => if shadow is Some {
            Shading::Shadow(i)
        } else {
            Shading::Lit(i)
        },
    }
}

/// Decides how a pixel is coloured from the nearest hits of its primary and shadow rays.
pub fn classify_pixel(primary: Option<usize>, shadow: Option<usize>) -> (r: Shading)
    ensures
        r == shading_of(primary, shadow),
{
    match primary {
        None => Shading::Background,
        Some(i) => match shadow {
            Some(_) => Shading::Shadow(i),
            None => Shading::Lit(i),
        },
    }
}

/// A ray that misses every primitive of a scene (every key at or above `miss`) has no
/// nearest hit, and its pixel is background, whatever the shadow ray found.
pub proof fn missing_ray_is_background(keys: Seq<u64>, miss: u64, shadow: Option<usize>)
    requires
        all_miss(keys, miss),
    ensures
        forall|i: int| !is_nearest(keys, miss, i),
        shading_of(None, shadow) == Shading::Background,
{
}

/// In a scene without primitives every ray misses: a `width` × `height` render goes
/// through `width * height` pixels, and the nearest-hit search finds nothing for any of
/// them, so each is background.
pub proof fn empty_scene_is_background(
    width: u32,
    height: u32,
    keys: Seq<u64>,
    miss: u64,
    shadow: Option<usize>,
)
    requires
        keys.len() == 0,
    ensures
        all_miss(keys, miss),
        pixel_sequence(width, height).len() == width as int * height as int,
        shading_of(None, shadow) == Shading::Background,
{
    assert(width as int * height as int >= 0) by (nonlinear_arith);
}

/// The pixel coordinates `(row, col)` of a `width` × `height` image, rows top to
/// bottom, each row left to right.
pub open spec fn pixel_sequence(width: u32, height: u32) -> Seq<(u32, u32)> {
    Seq::new(
        (width as int * height as int) as nat,
        |i: int| ((i / width as int) as u32, (i % width as int) as u32),
    )
}

/// The pixel coordinates `(row, col)` of a `width` × `height` image in the order a render
/// produces them: rows top to bottom, each row left to right.
pub fn pixel_order(width: u32, height: u32) -> (r: Vec<(u32, u32)>)
    requires
        width as int * height as int <= usize::MAX,
    ensures
        r@ == pixel_sequence(width, height),
{
    let mut r: Vec<(u32, u32)> = Vec::new();
    let mut row: u32 = 0;
    while row < height
        invariant
            row <= height,
            width as int * height as int <= usize::MAX,
            r@.len() == row as int * width as int,
            forall|i: int|
                0 <= i < r@.len() ==> #[trigger] r@[i].0 as int == i / width as int && r@[i].1 as int == i % width as int,
        decreases height - row,
    {
        let mut col: u32 = 0;
        while col < width
            invariant
                row < height,
                col <= width,
                width as int * height as int <= usize::MAX,
                r@.len() == row as int * width as int + col as int,
                forall|i: int|
                    0 <= i < r@.len() ==> #[trigger] r@[i].0 as int == i / width as int && r@[i].1 as int == i % width as int,
            decreases width - col,
        {
            proof {
                let n = row as int * width as int + col as int;
                assert(n / width as int == row as int && n % width as int == col as int) by (nonlinear_arith)
                    requires n == row as int * width as int + col as int, 0 <= col < width, 0 <= row;
            }
            r.push((row, col));
            col = col + 1;
        }
        proof {
            assert((row as int + 1) * width as int == row as int * width as int + width as int) by (nonlinear_arith);
        }
        row = row + 1;
    }
    assert(height as int * width as int == width as int * height as int) by (nonlinear_arith);
    assert forall|i: int| 0 <= i < r@.len() implies #[trigger] r@[i] == pixel_sequence(width, height)[i] by {
        assert(0 <= i / (width as int) < height as int && 0 <= i % (width as int) < width as int) by (nonlinear_arith)
            requires 0 <= i < width as int * height as int, r@.len() == width as int * height as int;
    }
    assert(r@ =~= pixel_sequence(width, height));
    r
}

} // verus!
