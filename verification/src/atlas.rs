//! A texture atlas: images are laid side by side in one horizontal strip and
//! found again by name.
use vstd::prelude::*;
use image::DynamicImage;
use image::GenericImage;
use image::GenericImageView;

verus! {

#[verifier::external_type_specification]
#[verifier::external_body]
pub struct ExDynamicImage(DynamicImage);

/// Width and height in pixels of an image, as
/// `image::GenericImageView::dimensions` reports them.
pub uninterp spec fn image_size(img: DynamicImage) -> (u32, u32);

/// The blank RGBA canvas `image::DynamicImage::new(width, height, Rgba8)`
/// makes.
pub uninterp spec fn blank_canvas(width: u32, height: u32) -> DynamicImage;

/// `canvas` after `image::GenericImage::copy_from` pasted `img` with its
/// top-left corner at `(x, y)`.
pub uninterp spec fn pasted(canvas: DynamicImage, img: DynamicImage, x: u32, y: u32) -> DynamicImage;

/// The image `image::load_from_memory_with_format(bytes, ImageFormat::Png)`
/// decodes from `bytes`, `None` where it reports an error.
pub uninterp spec fn decoded_image(bytes: Seq<u8>) -> Option<DynamicImage>;

/// `image::GenericImageView::dimensions` of `img`.
#[verifier::external_body]
fn image_dimensions(img: &DynamicImage) -> (res: (u32, u32))
    ensures
        res == image_size(*img),
{
    img.dimensions()
}

/// `image::DynamicImage::new(width, height, ColorType::Rgba8)`: a blank RGBA
/// canvas of that size. Per its source (`ImageBuffer::new`) it panics when
/// `4 * width`, or that times `height`, overflows `usize`, which `requires`
/// rules out.
#[verifier::external_body]
fn new_canvas(width: u32, height: u32) -> (res: DynamicImage)
    requires
        4 * (width as int) <= usize::MAX,
        4 * (width as int) * (height as int) <= usize::MAX,
    ensures
        res == blank_canvas(width, height),
        image_size(res) == (width, height),
{
    DynamicImage::new(width, height, image::ColorType::Rgba8)
}

/// `image::GenericImage::copy_from` of `img` into `canvas` at `(x, y)`; `true`
/// when it reported success. Per its source (`Rect::test_in_bounds`) it
/// succeeds exactly when `img` fits inside `canvas` at that place; it then
/// pastes `img` there, and otherwise leaves `canvas` as it was. The canvas
/// keeps its size either way.
#[verifier::external_body]
fn copy_into(canvas: &mut DynamicImage, img: &DynamicImage, x: u32, y: u32) -> (res: bool)
    ensures
        res == (x + image_size(*img).0 <= image_size(*old(canvas)).0 && y + image_size(*img).1
            <= image_size(*old(canvas)).1),
        res ==> *final(canvas) == pasted(*old(canvas), *img, x, y),
        !res ==> *final(canvas) == *old(canvas),
        image_size(*final(canvas)) == image_size(*old(canvas)),
{
    canvas.copy_from(img, x, y).is_ok()
}

/// `image::load_from_memory_with_format(bytes, ImageFormat::Png)`, its error
/// turned into `None`. With the format given, the `image` source goes straight
/// to its built-in PNG decoder under default limits, past the format-detection
/// and decoding hooks a process can register, so the result depends on
/// `bytes` alone.
#[verifier::external_body]
fn load_image(bytes: &[u8]) -> (res: Option<DynamicImage>)
    ensures
        res == decoded_image(bytes@),
{
    match image::load_from_memory_with_format(bytes, image::ImageFormat::Png) {
        Ok(img) => Some(img),
        Err(_) => None,
    }
}

/// Decodes a PNG image; `None` when the bytes are not a PNG the decoder
/// accepts.
pub fn decode_image(bytes: &[u8]) -> (res: Option<DynamicImage>)
    ensures
        res == decoded_image(bytes@),
{
    load_image(bytes)
}

/// An axis-aligned rectangle in atlas pixels: `left <= x < right`,
/// `top <= y < bottom`.
#[derive(Copy, Clone, Debug, PartialEq, Eq, Structural)]
pub struct PixelRect {
    pub left: u32,
    pub top: u32,
    pub right: u32,
    pub bottom: u32,
}

/// A rectangle relative to the whole atlas: each coordinate of `rect` over
/// the matching side of the atlas (x over width, y over height).
#[derive(Copy, Clone, Debug, PartialEq, Eq, Structural)]
pub struct RelativeRect {
    pub rect: PixelRect,
    pub atlas_width: u32,
    pub atlas_height: u32,
}

/// Why an atlas request was refused.
#[derive(Copy, Clone, Debug, PartialEq, Eq, Structural)]
pub enum AtlasError {
    /// No image was registered under the requested name.
    UnknownName,
}

/// Sum of the widths of the first `i` images: the left edge of image `i` in
/// the strip.
pub open spec fn strip_offset(dims: Seq<(u32, u32)>, i: int) -> int
    decreases i,
{
    if i <= 0 {
        0
    } else {
        strip_offset(dims, i - 1) + dims[i - 1].0
    }
}

/// Largest height among the first `i` images (0 for none).
pub open spec fn strip_height(dims: Seq<(u32, u32)>, i: int) -> int
    decreases i,
{
    if i <= 0 {
        0
    } else {
        let h = strip_height(dims, i - 1);
        if h < dims[i - 1].1 {
            dims[i - 1].1 as int
        } else {
            h
        }
    }
}

/// The rectangle that image `i` takes in the strip.
pub open spec fn strip_rect_matches(dims: Seq<(u32, u32)>, i: int, r: PixelRect) -> bool {
    &&& r.left == strip_offset(dims, i)
    &&& r.top == 0
    &&& r.right == strip_offset(dims, i) + dims[i].0
    &&& r.bottom == dims[i].1
}

/// `positions` is the strip layout of `dims`.
pub open spec fn is_strip_layout(dims: Seq<(u32, u32)>, positions: Seq<PixelRect>) -> bool {
    &&& positions.len() == dims.len()
    &&& forall|i: int| 0 <= i < dims.len() ==> strip_rect_matches(dims, i, #[trigger] positions[i])
}

/// The whole strip fits in `u32` pixels.
pub open spec fn strip_fits(dims: Seq<(u32, u32)>) -> bool {
    strip_offset(dims, dims.len() as int) <= u32::MAX
}

/// `canvas` with the first `n` images pasted one after another, image `i`
/// with its top-left corner at `(strip_offset(dims, i), 0)`.
pub open spec fn strip_composite(canvas: DynamicImage, images: Seq<DynamicImage>, dims: Seq<(u32, u32)>, n: int) -> DynamicImage
    decreases n,
{
    if n <= 0 {
        canvas
    } else {
        pasted(strip_composite(canvas, images, dims, n - 1), images[n - 1], strip_offset(dims, n - 1) as u32, 0)
    }
}

/// `canvas` with the first `n` images pasted one after another, image `i`
/// with its top-left corner at the top-left corner `(left, top)` of
/// rectangle `rects[i]`.
pub open spec fn rect_composite(canvas: DynamicImage, images: Seq<DynamicImage>, rects: Seq<PixelRect>, n: int) -> DynamicImage
    decreases n,
{
    if n <= 0 {
        canvas
    } else {
        pasted(rect_composite(canvas, images, rects, n - 1), images[n - 1], rects[n - 1].left, rects[n - 1].top)
    }
}

/// In the strip every image is pasted at the top-left corner of its own
/// layout rectangle: the strip composite is the composite at the layout's
/// rectangles, those that `get_relative_texture_rect` reports.
pub proof fn lemma_composite_at_rects(
    canvas: DynamicImage,
    images: Seq<DynamicImage>,
    dims: Seq<(u32, u32)>,
    positions: Seq<PixelRect>,
    n: int,
)
    requires
        is_strip_layout(dims, positions),
        0 <= n <= dims.len(),
    ensures
        strip_composite(canvas, images, dims, n) == rect_composite(canvas, images, positions, n),
    decreases n,
{
    if n > 0 {
        lemma_composite_at_rects(canvas, images, dims, positions, n - 1);
        assert(strip_rect_matches(dims, n - 1, positions[n - 1]));
    }
}

/// A strip layout is determined by the sizes alone: any two layouts of the
/// same sizes are the same rectangles.
pub proof fn lemma_strip_layout_unique(dims: Seq<(u32, u32)>, a: Seq<PixelRect>, b: Seq<PixelRect>)
    requires
        is_strip_layout(dims, a),
        is_strip_layout(dims, b),
    ensures
        a == b,
{
    assert forall|i: int| 0 <= i < a.len() implies a[i] == b[i] by {
        assert(strip_rect_matches(dims, i, a[i]));
        assert(strip_rect_matches(dims, i, b[i]));
    }
    assert(a =~= b);
}

/// Left edges in the strip never decrease and are never negative.
pub proof fn lemma_strip_offset_monotone(dims: Seq<(u32, u32)>, i: int, j: int)
    requires
        0 <= i <= j <= dims.len(),
    ensures
        0 <= strip_offset(dims, i) <= strip_offset(dims, j),
    decreases j - i,
{
    if i < j {
        lemma_strip_offset_monotone(dims, i, j - 1);
    } else {
        lemma_strip_offset_nonneg(dims, i);
    }
}

proof fn lemma_strip_offset_nonneg(dims: Seq<(u32, u32)>, i: int)
    ensures
        0 <= strip_offset(dims, i),
    decreases i,
{
    if i > 0 {
        lemma_strip_offset_nonneg(dims, i - 1);
    }
}

/// In a strip layout every image lies inside the strip, and an image lies
/// entirely left of every image after it: no two images overlap.
pub proof fn lemma_strip_layout_disjoint(dims: Seq<(u32, u32)>, positions: Seq<PixelRect>)
    requires
        is_strip_layout(dims, positions),
    ensures
        forall|i: int| 0 <= i < positions.len() ==> {
            &&& (#[trigger] positions[i]).left <= positions[i].right
            &&& positions[i].right <= strip_offset(dims, dims.len() as int)
            &&& positions[i].top == 0
            &&& positions[i].bottom <= strip_height(dims, dims.len() as int)
        },
        forall|i: int, j: int| 0 <= i < j < positions.len() ==> (#[trigger] positions[i]).right <= (#[trigger] positions[j]).left,
{
    assert forall|i: int| 0 <= i < positions.len() implies {
        &&& (#[trigger] positions[i]).left <= positions[i].right
        &&& positions[i].right <= strip_offset(dims, dims.len() as int)
        &&& positions[i].top == 0
        &&& positions[i].bottom <= strip_height(dims, dims.len() as int)
    } by {
        assert(strip_rect_matches(dims, i, positions[i]));
        lemma_strip_offset_monotone(dims, i + 1, dims.len() as int);
        lemma_strip_height_covers(dims, i, dims.len() as int);
    }
    assert forall|i: int, j: int| 0 <= i < j < positions.len() implies (#[trigger] positions[i]).right <= (#[trigger] positions[j]).left by {
        assert(strip_rect_matches(dims, i, positions[i]));
        assert(strip_rect_matches(dims, j, positions[j]));
        lemma_strip_offset_monotone(dims, i + 1, j);
    }
}

proof fn lemma_strip_height_covers(dims: Seq<(u32, u32)>, i: int, n: int)
    requires
        0 <= i < n <= dims.len(),
    ensures
        dims[i].1 <= strip_height(dims, n),
    decreases n,
{
    if i < n - 1 {
        lemma_strip_height_covers(dims, i, n - 1);
    }
}

proof fn lemma_strip_height_monotone(dims: Seq<(u32, u32)>, i: int, j: int)
    requires
        0 <= i <= j <= dims.len(),
    ensures
        strip_height(dims, i) <= strip_height(dims, j),
    decreases j - i,
{
    if i < j {
        lemma_strip_height_monotone(dims, i, j - 1);
    }
}

/// Left edges and heights in the strip of `dims` with image `id` taken out.
proof fn lemma_strip_after_remove(dims: Seq<(u32, u32)>, id: int, i: int)
    requires
        0 <= id < dims.len(),
        0 <= i < dims.len(),
    ensures
        i <= id ==> strip_offset(dims.remove(id), i) == strip_offset(dims, i),
        i > id ==> strip_offset(dims.remove(id), i) == strip_offset(dims, i + 1) - dims[id].0,
        strip_height(dims.remove(id), i) <= strip_height(dims, if i <= id { i } else { i + 1 }),
    decreases i,
{
    let r = dims.remove(id);
    if i > 0 {
        lemma_strip_after_remove(dims, id, i - 1);
        if i - 1 < id {
            assert(r[i - 1] == dims[i - 1]);
        } else {
            assert(r[i - 1] == dims[i]);
            assert(strip_offset(dims, i + 1) == strip_offset(dims, i) + dims[i].0);
            if i - 1 == id {
                assert(strip_offset(dims, i) == strip_offset(dims, i - 1) + dims[i - 1].0);
                lemma_strip_height_monotone(dims, i - 1, i);
            }
            assert(strip_height(dims, i + 1) >= strip_height(dims, i));
        }
    }
}

spec fn names_have(names: Seq<String>, name: Seq<char>) -> bool {
    exists|i: int| 0 <= i < names.len() && names[i]@ == name
}

spec fn names_slot(names: Seq<String>, name: Seq<char>) -> int {
    choose|i: int| 0 <= i < names.len() && names[i]@ == name
}

spec fn names_lookup(names: Seq<String>, ids: Seq<usize>) -> Map<Seq<char>, usize> {
    Map::new(|k: Seq<char>| names_have(names, k), |k: Seq<char>| ids[names_slot(names, k)])
}

/// Where slot `v` lies after slot `removed` is taken out: the slots after it
/// move down by one.
pub open spec fn shifted(v: usize, removed: usize) -> usize {
    if v > removed {
        (v - 1) as usize
    } else {
        v
    }
}

/// `m` with every slot renumbered for the removal of slot `removed`.
pub open spec fn renumbered(m: Map<Seq<char>, usize>, removed: usize) -> Map<Seq<char>, usize> {
    Map::new(|k: Seq<char>| m.contains_key(k), |k: Seq<char>| shifted(m[k], removed))
}

/// What adding `img` under `name` does: one more slot at the end holding
/// `img`, the name now refers to it, and the atlas is marked for rebuilding.
pub open spec fn add_effect(pre: AtlasTexture, post: AtlasTexture, name: Seq<char>, img: DynamicImage) -> bool {
    &&& post.needs_update()
    &&& post.images() == pre.images().push(img)
    &&& post.dims() == pre.dims().push(image_size(img))
    &&& post.lookup() == pre.lookup().insert(name, pre.images().len() as usize)
    &&& post.positions() == pre.positions()
    &&& post.size() == pre.size()
}

/// What removing the image registered under `name` does: an unknown name is
/// refused and changes nothing but the update mark; a known name is
/// unregistered, its image taken out, and every slot after it moves down by
/// one, so that each remaining name still refers to its own image.
pub open spec fn remove_effect(
    pre: AtlasTexture,
    post: AtlasTexture,
    name: Seq<char>,
    res: Result<(), AtlasError>,
) -> bool {
    &&& post.needs_update()
    &&& post.positions() == pre.positions()
    &&& post.size() == pre.size()
    &&& !pre.lookup().contains_key(name) ==> {
        &&& res == Err::<(), AtlasError>(AtlasError::UnknownName)
        &&& post.lookup() == pre.lookup()
        &&& post.images() == pre.images()
        &&& post.dims() == pre.dims()
    }
    &&& pre.lookup().contains_key(name) ==> {
        let id = pre.lookup()[name];
        &&& res == Ok::<(), AtlasError>(())
        &&& post.lookup() == renumbered(pre.lookup().remove(name), id)
        &&& post.images() == pre.images().remove(id as int)
        &&& post.dims() == pre.dims().remove(id as int)
    }
}

/// The strip of `dims` fits in `u32` pixels and its RGBA canvas in memory.
pub open spec fn buildable(dims: Seq<(u32, u32)>) -> bool {
    &&& strip_fits(dims)
    &&& 4 * strip_offset(dims, dims.len() as int) * strip_height(dims, dims.len() as int) <= usize::MAX
}

/// What building the merged image does: the update mark is cleared, the
/// strip laid out afresh, and the result is a blank canvas of the strip's
/// size with every image pasted at its place in the strip; an empty strip
/// (zero width or height) gives a blank 1x1 canvas and size. Images, sizes
/// and names stay.
pub open spec fn build_effect(pre: AtlasTexture, post: AtlasTexture, img: DynamicImage) -> bool {
    let n = pre.dims().len() as int;
    let w = strip_offset(pre.dims(), n);
    let h = strip_height(pre.dims(), n);
    &&& post.images() == pre.images()
    &&& post.dims() == pre.dims()
    &&& post.lookup() == pre.lookup()
    &&& !post.needs_update()
    &&& is_strip_layout(post.dims(), post.positions())
    &&& if w == 0 || h == 0 {
        &&& post.size() == (1u32, 1u32)
        &&& img == blank_canvas(1, 1)
    } else {
        &&& post.size() == (w as u32, h as u32)
        &&& img == strip_composite(blank_canvas(w as u32, h as u32), pre.images(), pre.dims(), n)
        &&& img == rect_composite(blank_canvas(w as u32, h as u32), pre.images(), post.positions(), n)
    }
}

/// Renumbers `ids` for the removal of slot `removed`: each slot after it
/// moves down by one.
fn renumber(ids: &mut Vec<usize>, removed: usize)
    ensures
        final(ids)@.len() == old(ids)@.len(),
        forall|j: int| 0 <= j < old(ids)@.len() ==> #[trigger] final(ids)@[j] == shifted(old(ids)@[j], removed),
{
    let ghost orig = ids@;
    let n: usize = ids.len();
    let mut j: usize = 0;
    while j < n
        invariant
            n == ids@.len(),
            n == orig.len(),
            j <= n,
            forall|t: int| 0 <= t < j ==> #[trigger] ids@[t] == shifted(orig[t], removed),
            forall|t: int| j <= t < n ==> #[trigger] ids@[t] == orig[t],
        decreases n - j,
    {
        let v: usize = ids[j];
        if v > removed {
            ids.set(j, v - 1);
        }
        j = j + 1;
    }
}

/// A set of images packed side by side into one strip, each found by name.
#[derive(Clone, Debug)]
pub struct AtlasTexture {
    need_update: bool,
    positions: Vec<PixelRect>,
    width: u32,
    height: u32,
    images: Vec<DynamicImage>,
    dims: Vec<(u32, u32)>,
    names: Vec<String>,
    ids: Vec<usize>,
}

impl AtlasTexture {
    /// Internal consistency: each size is its image's, each name refers to
    /// an existing slot, no two names share a slot and no name occurs twice.
    pub closed spec fn wf(self) -> bool {
        &&& self.images@.len() == self.dims@.len()
        &&& forall|i: int|
            #![trigger self.dims@[i]]
            #![trigger self.images@[i]]
            0 <= i < self.images@.len() ==> self.dims@[i] == image_size(self.images@[i])
        &&& self.names@.len() == self.ids@.len()
        &&& forall|j: int| 0 <= j < self.ids@.len() ==> #[trigger] self.ids@[j] < self.images@.len()
        &&& forall|a: int, b: int|
            0 <= a < self.ids@.len() && 0 <= b < self.ids@.len() && a != b
                ==> #[trigger] self.ids@[a] != #[trigger] self.ids@[b]
        &&& forall|i: int, j: int|
            0 <= i < self.names@.len() && 0 <= j < self.names@.len() && i != j
                ==> #[trigger] self.names@[i]@ != #[trigger] self.names@[j]@
    }

    /// The images, in slot order.
    pub closed spec fn images(self) -> Seq<DynamicImage> {
        self.images@
    }

    /// Pixel sizes of the images, in insertion order.
    pub closed spec fn dims(self) -> Seq<(u32, u32)> {
        self.dims@
    }

    /// Rectangles of the last layout computed.
    pub closed spec fn positions(self) -> Seq<PixelRect> {
        self.positions@
    }

    /// Size of the last layout computed.
    pub closed spec fn size(self) -> (u32, u32) {
        (self.width, self.height)
    }

    /// Whether the merged texture is out of date.
    pub closed spec fn needs_update(self) -> bool {
        self.need_update
    }

    pub closed spec fn has_name(self, name: Seq<char>) -> bool {
        names_have(self.names@, name)
    }

    closed spec fn slot_of(self, name: Seq<char>) -> int {
        names_slot(self.names@, name)
    }

    /// Which image slot each registered name refers to.
    pub closed spec fn lookup(self) -> Map<Seq<char>, usize> {
        names_lookup(self.names@, self.ids@)
    }

    proof fn lemma_slot(self, k: Seq<char>, j: int)
        requires
            self.wf(),
            0 <= j < self.names@.len(),
            self.names@[j]@ == k,
        ensures
            self.has_name(k),
            self.slot_of(k) == j,
            self.lookup().contains_key(k),
            self.lookup()[k] == self.ids@[j],
    {
        assert(self.has_name(k));
        let s = self.slot_of(k);
        assert(0 <= s < self.names@.len() && self.names@[s]@ == k);
        if s != j {
            assert(self.names@[s]@ != self.names@[j]@);
        }
    }

    /// Pointing the name at slot `slot` of the names (an existing one, or one
    /// appended at the end) to the image slot `id`, leaving the other names
    /// as they were, inserts `name -> id` into the lookup.
    proof fn lemma_slot_set(pre: AtlasTexture, post: AtlasTexture, name: Seq<char>, slot: int, id: usize)
        requires
            pre.wf(),
            post.wf(),
            post.names@.len() == pre.names@.len() || (post.names@.len() == pre.names@.len() + 1
                && slot == pre.names@.len()),
            0 <= slot < post.names@.len(),
            post.names@[slot]@ == name,
            post.ids@[slot] == id,
            slot < pre.names@.len() ==> pre.names@[slot]@ == name,
            forall|j: int|
                0 <= j < pre.names@.len() && j != slot ==> #[trigger] post.names@[j] == pre.names@[j]
                    && post.ids@[j] == pre.ids@[j],
        ensures
            post.lookup() == pre.lookup().insert(name, id),
    {
        post.lemma_slot(name, slot);
        assert forall|k: Seq<char>| #[trigger] post.lookup().contains_key(k) == pre.lookup().insert(name, id).contains_key(k)
            && (post.lookup().contains_key(k) ==> post.lookup()[k] == pre.lookup().insert(name, id)[k]) by {
            if k != name {
                if pre.has_name(k) {
                    let j = pre.slot_of(k);
                    pre.lemma_slot(k, j);
                    assert(post.names@[j] == pre.names@[j]);
                    post.lemma_slot(k, j);
                } else if post.has_name(k) {
                    let j = post.slot_of(k);
                    assert(j != slot);
                    assert(j < pre.names@.len());
                    assert(post.names@[j] == pre.names@[j]);
                    assert(pre.names@[j]@ == k);
                }
            }
        }
        assert(post.lookup() =~= pre.lookup().insert(name, id));
    }

    /// An empty atlas that needs no update.
    pub fn new() -> (res: Self)
        ensures
            res.wf(),
            res.images() == Seq::<DynamicImage>::empty(),
            res.dims() == Seq::<(u32, u32)>::empty(),
            res.lookup() == Map::<Seq<char>, usize>::empty(),
            res.positions() == Seq::<PixelRect>::empty(),
            res.size() == (0u32, 0u32),
            !res.needs_update(),
    {
        let res = AtlasTexture {
            need_update: false,
            positions: Vec::new(),
            width: 0,
            height: 0,
            images: Vec::new(),
            dims: Vec::new(),
            names: Vec::new(),
            ids: Vec::new(),
        };
        assert(res.lookup() =~= Map::<Seq<char>, usize>::empty());
        res
    }

    /// The slot of `name` among the names, if it is registered.
    fn find_slot(&self, name: &String) -> (res: Option<usize>)
        requires
            self.wf(),
        ensures
            match res {
                Some(i) => i < self.names@.len() && self.names@[i as int]@ == name@
                    && self.lookup().contains_key(name@) && self.lookup()[name@] == self.ids@[i as int],
                None => !self.lookup().contains_key(name@),
            },
    {
        let mut i: usize = 0;
        while i < self.names.len()
            invariant
                self.wf(),
                i <= self.names@.len(),
                forall|j: int| 0 <= j < i ==> self.names@[j]@ != name@,
            decreases self.names@.len() - i,
        {
            if self.names[i] == *name {
                proof {
                    self.lemma_slot(name@, i as int);
                }
                return Some(i);
            }
            i = i + 1;
        }
        None
    }

    /// Whether an image is registered under `name`.
    pub fn has_image(&self, name: String) -> (res: bool)
        requires
            self.wf(),
        ensures
            res == self.lookup().contains_key(name@),
    {
        self.find_slot(&name).is_some()
    }

    /// Whether the merged texture must be rebuilt.
    pub fn need_update(&self) -> (res: bool)
        ensures
            res == self.needs_update(),
    {
        self.need_update
    }

    /// Size in pixels of the last layout computed.
    pub fn get_size(&self) -> (res: (u32, u32))
        ensures
            res == self.size(),
    {
        (self.width, self.height)
    }

    /// Number of image slots.
    pub fn len(&self) -> (res: usize)
        requires
            self.wf(),
        ensures
            res == self.dims().len(),
    {
        self.dims.len()
    }

    /// Pixel size of the image in slot `i`.
    pub fn image_size(&self, i: usize) -> (res: (u32, u32))
        requires
            self.wf(),
            i < self.dims().len(),
        ensures
            res == self.dims()[i as int],
    {
        self.dims[i]
    }

    /// Total width and largest height of the strip when the width fits in
    /// `u32`, `None` otherwise.
    pub fn strip_size(&self) -> (res: Option<(u32, u32)>)
        requires
            self.wf(),
        ensures
            res is Some <==> strip_fits(self.dims()),
            res matches Some((w, h)) ==> w == strip_offset(self.dims(), self.dims().len() as int)
                && h == strip_height(self.dims(), self.dims().len() as int),
    {
        let mut total: u32 = 0;
        let mut height: u32 = 0;
        let mut i: usize = 0;
        while i < self.dims.len()
            invariant
                i <= self.dims@.len(),
                total == strip_offset(self.dims@, i as int),
                height == strip_height(self.dims@, i as int),
            decreases self.dims@.len() - i,
        {
            let (w, h) = self.dims[i];
            if height < h {
                height = h;
            }
            match total.checked_add(w) {
                Some(t) => {
                    total = t;
                },
                None => {
                    proof {
                        lemma_strip_offset_monotone(self.dims@, i + 1, self.dims@.len() as int);
                    }
                    return None;
                },
            }
            i = i + 1;
        }
        Some((total, height))
    }

    /// Registers `img` under `name` in a new slot at the end; a name that was
    /// already registered now refers to the new slot. Marks the atlas for
    /// rebuilding.
    pub fn add_image(&mut self, img: DynamicImage, name: String)
        requires
            old(self).wf(),
        ensures
            final(self).wf(),
            add_effect(*old(self), *final(self), name@, img),
    {
        self.need_update = true;
        let id: usize = self.images.len();
        let d = image_dimensions(&img);
        self.images.push(img);
        self.dims.push(d);
        let ghost pre = *self;
        assert(pre.wf());
        match self.find_slot(&name) {
            Some(i) => {
                self.ids.set(i, id);
                proof {
                    let post = *self;
                    assert(post.names@ == pre.names@);
                    assert forall|a: int, b: int|
                        0 <= a < post.ids@.len() && 0 <= b < post.ids@.len() && a != b
                            implies #[trigger] post.ids@[a] != #[trigger] post.ids@[b] by {
                        if a != i && b != i {
                            assert(pre.ids@[a] != pre.ids@[b]);
                        } else if a == i {
                            assert(pre.ids@[b] < old(self).images@.len());
                        } else {
                            assert(pre.ids@[a] < old(self).images@.len());
                        }
                    }
                    assert(post.wf());
                    AtlasTexture::lemma_slot_set(pre, post, name@, i as int, id);
                }
            },
            None => {
                self.names.push(name);
                self.ids.push(id);
                proof {
                    let post = *self;
                    let n = pre.names@.len() as int;
                    assert(post.names@ == pre.names@.push(name));
                    assert(post.ids@ == pre.ids@.push(id));
                    assert forall|a: int, b: int|
                        0 <= a < post.ids@.len() && 0 <= b < post.ids@.len() && a != b
                            implies #[trigger] post.ids@[a] != #[trigger] post.ids@[b] by {
                        if a < n && b < n {
                            assert(pre.ids@[a] != pre.ids@[b]);
                        } else if a == n {
                            assert(pre.ids@[b] < old(self).images@.len());
                        } else {
                            assert(pre.ids@[a] < old(self).images@.len());
                        }
                    }
                    assert forall|a: int, b: int|
                        0 <= a < post.names@.len() && 0 <= b < post.names@.len() && a != b
                            implies #[trigger] post.names@[a]@ != #[trigger] post.names@[b]@ by {
                        if a < n && b < n {
                            assert(pre.names@[a]@ != pre.names@[b]@);
                        } else if a == n {
                            assert(!pre.has_name(name@)) by {
                                pre.lemma_lookup_has(name@);
                            }
                            assert(pre.names@[b]@ != name@);
                        } else {
                            assert(!pre.has_name(name@)) by {
                                pre.lemma_lookup_has(name@);
                            }
                            assert(pre.names@[a]@ != name@);
                        }
                    }
                    assert(post.wf());
                    AtlasTexture::lemma_slot_set(pre, post, name@, n, id);
                }
            },
        }
    }

    /// Unregisters `name` and removes the image of its slot; the slots after
    /// it move down by one, and the names that referred to them follow.
    /// Marks the atlas for rebuilding in every case.
    pub fn remove_image(&mut self, name: String) -> (res: Result<(), AtlasError>)
        requires
            old(self).wf(),
        ensures
            final(self).wf(),
            remove_effect(*old(self), *final(self), name@, res),
    {
        self.need_update = true;
        match self.find_slot(&name) {
            None => Err(AtlasError::UnknownName),
            Some(i) => {
                let id: usize = self.ids[i];
                let ghost pre = *self;
                self.names.remove(i);
                self.ids.remove(i);
                let ghost mid = *self;
                proof {
                    assert forall|a: int, b: int|
                        0 <= a < mid.names@.len() && 0 <= b < mid.names@.len() && a != b
                            implies #[trigger] mid.names@[a]@ != #[trigger] mid.names@[b]@ by {
                        let a2 = if a < i { a } else { a + 1 };
                        let b2 = if b < i { b } else { b + 1 };
                        assert(mid.names@[a] == pre.names@[a2]);
                        assert(mid.names@[b] == pre.names@[b2]);
                        assert(pre.names@[a2]@ != pre.names@[b2]@);
                    }
                    assert forall|j: int| 0 <= j < mid.ids@.len() implies #[trigger] mid.ids@[j] != id
                        && mid.ids@[j] < pre.images@.len() by {
                        let j2 = if j < i { j } else { j + 1 };
                        assert(mid.ids@[j] == pre.ids@[j2]);
                        assert(pre.ids@[j2] != pre.ids@[i as int]);
                    }
                    assert forall|a: int, b: int|
                        0 <= a < mid.ids@.len() && 0 <= b < mid.ids@.len() && a != b
                            implies #[trigger] mid.ids@[a] != #[trigger] mid.ids@[b] by {
                        let a2 = if a < i { a } else { a + 1 };
                        let b2 = if b < i { b } else { b + 1 };
                        assert(mid.ids@[a] == pre.ids@[a2]);
                        assert(mid.ids@[b] == pre.ids@[b2]);
                    }
                    assert(mid.wf());
                    assert forall|k: Seq<char>| #[trigger] mid.lookup().contains_key(k) == pre.lookup().remove(name@).contains_key(k)
                        && (mid.lookup().contains_key(k) ==> mid.lookup()[k] == pre.lookup().remove(name@)[k]) by {
                        if k == name@ {
                            if mid.has_name(k) {
                                let j = mid.slot_of(k);
                                let j2 = if j < i { j } else { j + 1 };
                                assert(pre.names@[j2]@ == k);
                                assert(pre.names@[i as int]@ == k);
                            }
                        } else if pre.has_name(k) {
                            let j = pre.slot_of(k);
                            pre.lemma_slot(k, j);
                            assert(j != i);
                            let j1 = if j < i { j } else { j - 1 };
                            assert(mid.names@[j1] == pre.names@[j]);
                            mid.lemma_slot(k, j1);
                        } else if mid.has_name(k) {
                            let j = mid.slot_of(k);
                            let j2 = if j < i { j } else { j + 1 };
                            assert(pre.names@[j2]@ == k);
                        }
                    }
                    assert(mid.lookup() =~= pre.lookup().remove(name@));
                }
                renumber(&mut self.ids, id);
                self.images.remove(id);
                self.dims.remove(id);
                proof {
                    let post = *self;
                    assert(post.names@ == mid.names@);
                    assert forall|j: int| 0 <= j < post.ids@.len() implies #[trigger] post.ids@[j] < post.images@.len() by {
                        assert(mid.ids@[j] != id);
                        assert(mid.ids@[j] < pre.images@.len());
                    }
                    assert forall|a: int, b: int|
                        0 <= a < post.ids@.len() && 0 <= b < post.ids@.len() && a != b
                            implies #[trigger] post.ids@[a] != #[trigger] post.ids@[b] by {
                        assert(mid.ids@[a] != mid.ids@[b]);
                        assert(mid.ids@[a] != id);
                        assert(mid.ids@[b] != id);
                    }
                    assert forall|t: int| 0 <= t < post.images@.len() implies post.dims@[t] == image_size(
                        #[trigger] post.images@[t],
                    ) by {
                        let t2 = if t < id { t } else { t + 1 };
                        assert(post.images@[t] == pre.images@[t2]);
                        assert(post.dims@[t] == pre.dims@[t2]);
                        assert(pre.dims@[t2] == image_size(pre.images@[t2]));
                    }
                    assert(post.wf());
                    assert forall|k: Seq<char>| #[trigger] post.lookup().contains_key(k) == renumbered(mid.lookup(), id).contains_key(k)
                        && (post.lookup().contains_key(k) ==> post.lookup()[k] == renumbered(mid.lookup(), id)[k]) by {
                        if post.has_name(k) {
                            let j = post.slot_of(k);
                            assert(mid.has_name(k));
                            assert(mid.slot_of(k) == j);
                        }
                    }
                    assert(post.lookup() =~= renumbered(mid.lookup(), id));
                }
                Ok(())
            },
        }
    }

    /// Lays the images out side by side from the left edge, each with its
    /// top edge at 0, and records the strip's total width and largest height.
    pub fn build_positions(&mut self)
        requires
            old(self).wf(),
            strip_fits(old(self).dims()),
        ensures
            final(self).wf(),
            final(self).images() == old(self).images(),
            final(self).dims() == old(self).dims(),
            final(self).lookup() == old(self).lookup(),
            final(self).needs_update() == old(self).needs_update(),
            is_strip_layout(final(self).dims(), final(self).positions()),
            final(self).size().0 == strip_offset(old(self).dims(), old(self).dims().len() as int),
            final(self).size().1 == strip_height(old(self).dims(), old(self).dims().len() as int),
    {
        let mut needed_height: u32 = 0;
        let mut needed_width: u32 = 0;
        self.positions.clear();
        let n: usize = self.dims.len();
        let mut i: usize = 0;
        while i < n
            invariant
                n == self.dims@.len(),
                i <= n,
                self.dims@ == old(self).dims@,
                self.images@ == old(self).images@,
                self.names@ == old(self).names@,
                self.ids@ == old(self).ids@,
                self.need_update == old(self).need_update,
                strip_fits(self.dims@),
                needed_width == strip_offset(self.dims@, i as int),
                needed_height == strip_height(self.dims@, i as int),
                self.positions@.len() == i,
                forall|j: int| 0 <= j < i ==> strip_rect_matches(self.dims@, j, #[trigger] self.positions@[j]),
            decreases n - i,
        {
            let (w, h) = self.dims[i];
            if needed_height < h {
                needed_height = h;
            }
            proof {
                lemma_strip_offset_monotone(self.dims@, i + 1, n as int);
            }
            self.positions.push(PixelRect { left: needed_width, top: 0, right: needed_width + w, bottom: h });
            needed_width = needed_width + w;
            i = i + 1;
        }
        self.width = needed_width;
        self.height = needed_height;
    }

    /// Where the image registered under `name` lies in the atlas, as its
    /// pixel rectangle over the atlas size, after laying the strip out afresh.
    pub fn get_relative_texture_rect(&mut self, name: String) -> (res: Result<RelativeRect, AtlasError>)
        requires
            old(self).wf(),
            strip_fits(old(self).dims()),
        ensures
            final(self).wf(),
            final(self).images() == old(self).images(),
            final(self).dims() == old(self).dims(),
            final(self).lookup() == old(self).lookup(),
            final(self).needs_update() == old(self).needs_update(),
            is_strip_layout(final(self).dims(), final(self).positions()),
            final(self).size().0 == strip_offset(old(self).dims(), old(self).dims().len() as int),
            final(self).size().1 == strip_height(old(self).dims(), old(self).dims().len() as int),
            !old(self).lookup().contains_key(name@) ==> res == Err::<RelativeRect, AtlasError>(AtlasError::UnknownName),
            old(self).lookup().contains_key(name@) ==> {
                let id = old(self).lookup()[name@] as int;
                &&& res == Ok::<RelativeRect, AtlasError>(
                    RelativeRect {
                        rect: final(self).positions()[id],
                        atlas_width: final(self).size().0,
                        atlas_height: final(self).size().1,
                    },
                )
                &&& strip_rect_matches(old(self).dims(), id, final(self).positions()[id])
            },
            res matches Ok(r) ==> {
                &&& r.rect.left <= r.rect.right <= r.atlas_width
                &&& r.rect.top <= r.rect.bottom <= r.atlas_height
            },
    {
        self.build_positions();
        proof {
            lemma_strip_layout_disjoint(self.dims@, self.positions@);
        }
        match self.find_slot(&name) {
            None => Err(AtlasError::UnknownName),
            Some(i) => {
                let id: usize = self.ids[i];
                Ok(RelativeRect { rect: self.positions[id], atlas_width: self.width, atlas_height: self.height })
            },
        }
    }

    /// Clears the update mark, lays the strip out and pastes every image at
    /// its place in the strip into a blank canvas of the strip's size; an
    /// empty strip (zero width or height) gets a blank 1x1 canvas and size.
    #[verifier::loop_isolation(false)]
    pub fn build_image(&mut self) -> (res: DynamicImage)
        requires
            old(self).wf(),
            buildable(old(self).dims()),
        ensures
            final(self).wf(),
            build_effect(*old(self), *final(self), res),
    {
        self.need_update = false;
        self.build_positions();
        let (w, h) = (self.width, self.height);
        if w == 0 || h == 0 {
            self.width = 1;
            self.height = 1;
            return new_canvas(1, 1);
        }
        let ghost built = *self;
        proof {
            lemma_strip_layout_disjoint(self.dims@, self.positions@);
        }
        assert(4 * (w as int) <= 4 * (w as int) * (h as int)) by (nonlinear_arith)
            requires
                h >= 1,
        ;
        let mut canvas = new_canvas(w, h);
        let n: usize = self.images.len();
        let mut i: usize = 0;
        while i < n
            invariant
                *self == built,
                n == self.images@.len(),
                i <= n,
                image_size(canvas) == (w, h),
                canvas == rect_composite(blank_canvas(w, h), self.images@, self.positions@, i as int),
            decreases n - i,
        {
            let p = self.positions[i];
            assert(strip_rect_matches(self.dims@, i as int, p));
            assert(self.dims@[i as int] == image_size(self.images@[i as int]));
            let ok = copy_into(&mut canvas, &self.images[i], p.left, p.top);
            assert(ok);
            i = i + 1;
        }
        proof {
            lemma_composite_at_rects(blank_canvas(w, h), self.images@, self.dims@, self.positions@, n as int);
        }
        canvas
    }

    /// Rebuilds the merged image when an image was added or removed since the
    /// last build: `Some` of the new image then, and `None`, with nothing
    /// changed, otherwise.
    pub fn build_if_needed(&mut self) -> (res: Option<DynamicImage>)
        requires
            old(self).wf(),
            old(self).needs_update() ==> buildable(old(self).dims()),
        ensures
            final(self).wf(),
            !final(self).needs_update(),
            res is Some <==> old(self).needs_update(),
            res matches Some(img) ==> build_effect(*old(self), *final(self), img),
            res is None ==> *final(self) == *old(self),
    {
        if self.need_update {
            Some(self.build_image())
        } else {
            None
        }
    }

    /// Every registered name refers to an existing slot, and no two names
    /// refer to the same slot; each slot's size is its image's.
    pub proof fn lemma_lookup_valid(self)
        requires
            self.wf(),
        ensures
            self.dims().len() == self.images().len(),
            forall|i: int| 0 <= i < self.images().len() ==> #[trigger] self.dims()[i] == image_size(self.images()[i]),
            forall|k: Seq<char>| #[trigger] self.lookup().contains_key(k) ==> self.lookup()[k] < self.images().len(),
            forall|k1: Seq<char>, k2: Seq<char>|
                #[trigger] self.lookup().contains_key(k1) && #[trigger] self.lookup().contains_key(k2) && k1 != k2
                    ==> self.lookup()[k1] != self.lookup()[k2],
    {
        assert forall|k: Seq<char>| #[trigger] self.lookup().contains_key(k) implies self.lookup()[k] < self.images().len() by {
            let j = self.slot_of(k);
            assert(self.ids@[j] < self.images@.len());
        }
        assert forall|k1: Seq<char>, k2: Seq<char>|
            #[trigger] self.lookup().contains_key(k1) && #[trigger] self.lookup().contains_key(k2) && k1 != k2
                implies self.lookup()[k1] != self.lookup()[k2] by {
            let j1 = self.slot_of(k1);
            let j2 = self.slot_of(k2);
            assert(j1 != j2);
            assert(self.ids@[j1] != self.ids@[j2]);
        }
    }

    /// After `img` is added under a name, that name refers to the new last
    /// slot, which holds `img`.
    pub proof fn lemma_added_image_found(pre: AtlasTexture, post: AtlasTexture, name: Seq<char>, img: DynamicImage)
        requires
            pre.wf(),
            add_effect(pre, post, name, img),
        ensures
            post.lookup().contains_key(name),
            post.lookup()[name] == post.images().len() - 1,
            post.images()[post.lookup()[name] as int] == img,
            post.dims()[post.lookup()[name] as int] == image_size(img),
    {
        assert(pre.images@.len() == pre.images.len());
    }

    /// After the image registered under a name is removed, successfully or
    /// not, the name is unknown: looking it up or removing it again fails
    /// with `UnknownName`.
    pub proof fn lemma_removed_image_gone(pre: AtlasTexture, post: AtlasTexture, name: Seq<char>, res: Result<(), AtlasError>)
        requires
            remove_effect(pre, post, name, res),
        ensures
            !post.lookup().contains_key(name),
    {
    }

    /// Removing one image leaves every other registered name referring to
    /// the very image it referred to before.
    pub proof fn lemma_remove_keeps_images(
        pre: AtlasTexture,
        post: AtlasTexture,
        name: Seq<char>,
        res: Result<(), AtlasError>,
        other: Seq<char>,
    )
        requires
            pre.wf(),
            remove_effect(pre, post, name, res),
            pre.lookup().contains_key(other),
            other != name,
        ensures
            post.lookup().contains_key(other),
            post.lookup()[other] < post.images().len(),
            post.images()[post.lookup()[other] as int] == pre.images()[pre.lookup()[other] as int],
    {
        pre.lemma_lookup_valid();
        if pre.lookup().contains_key(name) {
            let id = pre.lookup()[name];
            let v = pre.lookup()[other];
            assert(v != id);
            assert(renumbered(pre.lookup().remove(name), id).contains_key(other));
            assert(post.lookup()[other] == shifted(v, id));
        }
    }

    /// Removing an image never widens nor heightens the strip, so an atlas
    /// whose strip fitted still fits after a removal.
    pub proof fn lemma_remove_shrinks_strip(pre: AtlasTexture, post: AtlasTexture, name: Seq<char>, res: Result<(), AtlasError>)
        requires
            pre.wf(),
            remove_effect(pre, post, name, res),
        ensures
            strip_offset(post.dims(), post.dims().len() as int) <= strip_offset(pre.dims(), pre.dims().len() as int),
            strip_height(post.dims(), post.dims().len() as int) <= strip_height(pre.dims(), pre.dims().len() as int),
            strip_fits(pre.dims()) ==> strip_fits(post.dims()),
    {
        pre.lemma_lookup_valid();
        if pre.lookup().contains_key(name) {
            let id = pre.lookup()[name] as int;
            let d = pre.dims();
            let n = d.len() as int;
            assert(d.remove(id).len() == n - 1);
            lemma_strip_after_remove(d, id, n - 1);
            lemma_strip_offset_monotone(d, n - 1, n);
            lemma_strip_height_monotone(d, n - 1, n);
        }
    }

    /// Removing the image just added under a name undoes the addition: the
    /// removal succeeds, the images are those from before, and the name is
    /// unknown afterwards (an earlier image under that name stays dropped
    /// from the lookup).
    pub proof fn lemma_add_then_remove(
        pre: AtlasTexture,
        mid: AtlasTexture,
        post: AtlasTexture,
        name: Seq<char>,
        img: DynamicImage,
        res: Result<(), AtlasError>,
    )
        requires
            pre.wf(),
            add_effect(pre, mid, name, img),
            remove_effect(mid, post, name, res),
        ensures
            res == Ok::<(), AtlasError>(()),
            post.images() == pre.images(),
            post.dims() == pre.dims(),
            post.lookup() == pre.lookup().remove(name),
    {
        pre.lemma_lookup_valid();
        assert(pre.images@.len() == pre.images.len());
        let last = pre.images().len() as int;
        assert(mid.lookup()[name] == last);
        assert(mid.images().remove(last) =~= pre.images());
        assert(mid.dims().remove(last) =~= pre.dims());
        let m = mid.lookup().remove(name);
        assert(m =~= pre.lookup().remove(name));
        assert(renumbered(m, last as usize) =~= m);
    }

    proof fn lemma_lookup_has(self, k: Seq<char>)
        ensures
            self.lookup().contains_key(k) == self.has_name(k),
    {
    }
}

} // verus!
