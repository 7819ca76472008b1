//! What a text render object shows and the bookkeeping of the atlas image it
//! last produced.
use vstd::prelude::*;
use crate::atlas::{AtlasError, AtlasTexture, add_effect, remove_effect};
use image::DynamicImage;
use crate::colour::{pack_colour, packed, unpack_colour, unpacked, lemma_unpack_pack};

verus! {

/// The next step of redrawing a text object.
#[derive(Copy, Clone, Debug, PartialEq, Eq, Structural)]
pub enum RedrawStep {
    /// Nothing changed: the vertices made last time stay valid.
    Keep,
    /// The text is empty: there is nothing to draw.
    Empty,
    /// Shape and rasterise the text anew.
    Draw,
}

/// Whether a redraw step succeeded, forgetting which step it was.
pub open spec fn outcome_of(res: Result<RedrawStep, AtlasError>) -> Result<(), AtlasError> {
    match res {
        Ok(_) => Ok(()),
        Err(e) => Err(e),
    }
}

/// The font, string and colour of a text object, whether they changed since
/// it was last drawn, and the atlas name of the image it last drew.
#[derive(Clone, Debug)]
pub struct TextContent {
    have_vertices_changed: bool,
    font_name: String,
    text: String,
    colour: u32,
    old_image_name: Option<String>,
}

impl TextContent {
    pub closed spec fn changed(self) -> bool {
        self.have_vertices_changed
    }

    pub closed spec fn font(self) -> Seq<char> {
        self.font_name@
    }

    pub closed spec fn text_view(self) -> Seq<char> {
        self.text@
    }

    /// The colour as packed by `cosmic_text::Color`.
    pub closed spec fn colour_value(self) -> u32 {
        self.colour
    }

    pub closed spec fn old_image(self) -> Option<Seq<char>> {
        match self.old_image_name {
            Some(n) => Some(n@),
            None => None,
        }
    }

    /// A text object that still has to be drawn. The font has to be
    /// installed on the user's system.
    pub fn new(font_name: String, text: String, colour: (u8, u8, u8, u8)) -> (res: Self)
        ensures
            res.changed(),
            res.font() == font_name@,
            res.text_view() == text@,
            res.colour_value() == packed(colour.0, colour.1, colour.2, colour.3),
            res.old_image() is None,
            forall|atlas: AtlasTexture| image_recorded(res, atlas),
    {
        TextContent {
            have_vertices_changed: true,
            font_name,
            text,
            colour: pack_colour(colour),
            old_image_name: None,
        }
    }

    /// Replaces the string; the object has to be drawn again.
    pub fn set_text(&mut self, text: String)
        ensures
            forall|atlas: AtlasTexture| keeps_recorded(*old(self), atlas, *final(self), atlas),
            final(self).changed(),
            final(self).text_view() == text@,
            final(self).font() == old(self).font(),
            final(self).colour_value() == old(self).colour_value(),
            final(self).old_image() == old(self).old_image(),
    {
        self.text = text;
        self.have_vertices_changed = true;
    }

    /// The string shown.
    pub fn get_text(self) -> (res: String)
        ensures
            res@ == self.text_view(),
    {
        self.text
    }

    /// The string shown, borrowed.
    pub fn text(&self) -> (res: &String)
        ensures
            res@ == self.text_view(),
    {
        &self.text
    }

    /// The font family name.
    pub fn font_name(&self) -> (res: &String)
        ensures
            res@ == self.font(),
    {
        &self.font_name
    }

    /// Replaces the colour; the object has to be drawn again.
    pub fn set_colour(&mut self, colour: (u8, u8, u8, u8))
        ensures
            forall|atlas: AtlasTexture| keeps_recorded(*old(self), atlas, *final(self), atlas),
            final(self).changed(),
            final(self).colour_value() == packed(colour.0, colour.1, colour.2, colour.3),
            final(self).text_view() == old(self).text_view(),
            final(self).font() == old(self).font(),
            final(self).old_image() == old(self).old_image(),
    {
        self.colour = pack_colour(colour);
        self.have_vertices_changed = true;
    }

    /// The colour as `(r, g, b, a)`.
    pub fn get_colour(self) -> (res: (u8, u8, u8, u8))
        ensures
            res == unpacked(self.colour_value()),
    {
        unpack_colour(self.colour)
    }

    /// The colour as packed by `cosmic_text::Color`.
    pub fn colour(&self) -> (res: u32)
        ensures
            res == self.colour_value(),
    {
        self.colour
    }

    /// Whether the object has to be drawn again.
    pub fn have_vertices_changed(&self) -> (res: bool)
        ensures
            res == self.changed(),
    {
        self.have_vertices_changed
    }

    /// Something else that shapes the text (its scale) changed; the object
    /// has to be drawn again.
    pub fn mark_changed(&mut self)
        ensures
            forall|atlas: AtlasTexture| keeps_recorded(*old(self), atlas, *final(self), atlas),
            final(self).changed(),
            final(self).text_view() == old(self).text_view(),
            final(self).font() == old(self).font(),
            final(self).colour_value() == old(self).colour_value(),
            final(self).old_image() == old(self).old_image(),
    {
        self.have_vertices_changed = true;
    }

    /// Starts a redraw: when something changed, the image drawn last time is
    /// taken out of the atlas, its name forgotten and the change mark
    /// cleared; an empty string then has nothing to draw. When the atlas no
    /// longer knows that image's name the removal fails and the object stays
    /// as it was.
    pub fn begin_redraw(&mut self, atlas: &mut AtlasTexture) -> (res: Result<RedrawStep, AtlasError>)
        requires
            old(atlas).wf(),
        ensures
            final(atlas).wf(),
            final(self).font() == old(self).font(),
            final(self).text_view() == old(self).text_view(),
            final(self).colour_value() == old(self).colour_value(),
            !old(self).changed() ==> res == Ok::<RedrawStep, AtlasError>(RedrawStep::Keep)
                && *final(self) == *old(self) && *final(atlas) == *old(atlas),
            old(self).changed() ==> match old(self).old_image() {
                Some(n) => remove_effect(*old(atlas), *final(atlas), n, outcome_of(res)),
                None => res is Ok && *final(atlas) == *old(atlas),
            },
            old(self).changed() && res is Err ==> *final(self) == *old(self),
            old(self).changed() && res is Ok ==> {
                &&& !final(self).changed()
                &&& final(self).old_image() is None
                &&& res == Ok::<RedrawStep, AtlasError>(
                    if old(self).text_view().len() == 0 {
                        RedrawStep::Empty
                    } else {
                        RedrawStep::Draw
                    },
                )
            },
            image_recorded(*old(self), *old(atlas)) ==> res is Ok,
            keeps_recorded(*old(self), *old(atlas), *final(self), *final(atlas)),
    {
        if !self.have_vertices_changed {
            return Ok(RedrawStep::Keep);
        }
        match &self.old_image_name {
            Some(old_name) => {
                match atlas.remove_image(old_name.clone()) {
                    Ok(()) => {},
                    Err(e) => {
                        return Err(e);
                    },
                }
            },
            None => {},
        }
        self.have_vertices_changed = false;
        self.old_image_name = None;
        if self.text.as_str().is_empty() {
            return Ok(RedrawStep::Empty);
        }
        Ok(RedrawStep::Draw)
    }

    /// Adds the image just drawn to the atlas under `name` and remembers that
    /// name, so that the next redraw takes the image out again.
    pub fn record_image(&mut self, atlas: &mut AtlasTexture, img: DynamicImage, name: String)
        requires
            old(atlas).wf(),
        ensures
            final(atlas).wf(),
            add_effect(*old(atlas), *final(atlas), name@, img),
            final(self).old_image() == Some(name@),
            final(atlas).lookup().contains_key(name@),
            image_recorded(*final(self), *final(atlas)),
            keeps_recorded(*old(self), *old(atlas), *final(self), *final(atlas)),
            final(self).changed() == old(self).changed(),
            final(self).text_view() == old(self).text_view(),
            final(self).font() == old(self).font(),
            final(self).colour_value() == old(self).colour_value(),
    {
        atlas.add_image(img, name.clone());
        self.old_image_name = Some(name);
    }
}

/// The atlas still holds the image a text object last recorded, if any: the
/// next redraw can take it out.
pub open spec fn image_recorded(text: TextContent, atlas: AtlasTexture) -> bool {
    text.old_image() matches Some(n) ==> atlas.lookup().contains_key(n)
}

/// A step from `(t0, a0)` to `(t1, a1)` keeps the text's recorded image in
/// its atlas.
pub open spec fn keeps_recorded(t0: TextContent, a0: AtlasTexture, t1: TextContent, a1: AtlasTexture) -> bool {
    image_recorded(t0, a0) ==> image_recorded(t1, a1)
}

/// Along any run of a text object and its atlas that starts from a new text
/// and goes by steps that each keep the recorded image in the atlas (each of
/// `set_text`, `set_colour`, `mark_changed`, `begin_redraw` and
/// `record_image` ensures `keeps_recorded`), the atlas holds the text's
/// recorded image in every state: every redraw can take the old image out.
pub proof fn lemma_recorded_along_run(texts: Seq<TextContent>, atlases: Seq<AtlasTexture>)
    requires
        texts.len() == atlases.len(),
        texts.len() > 0,
        texts[0].old_image() is None,
        forall|i: int| 0 <= i < texts.len() - 1 ==> #[trigger] keeps_recorded(texts[i], atlases[i], texts[i + 1], atlases[i + 1]),
    ensures
        forall|i: int| 0 <= i < texts.len() ==> #[trigger] image_recorded(texts[i], atlases[i]),
{
    assert forall|i: int| 0 <= i < texts.len() implies #[trigger] image_recorded(texts[i], atlases[i]) by {
        lemma_recorded_prefix(texts, atlases, i);
    }
}

proof fn lemma_recorded_prefix(texts: Seq<TextContent>, atlases: Seq<AtlasTexture>, i: int)
    requires
        texts.len() == atlases.len(),
        0 <= i < texts.len(),
        texts[0].old_image() is None,
        forall|j: int| 0 <= j < texts.len() - 1 ==> #[trigger] keeps_recorded(texts[j], atlases[j], texts[j + 1], atlases[j + 1]),
    ensures
        image_recorded(texts[i], atlases[i]),
    decreases i,
{
    if i > 0 {
        lemma_recorded_prefix(texts, atlases, i - 1);
        let j = i - 1;
        assert(keeps_recorded(texts[j], atlases[j], texts[j + 1], atlases[j + 1]));
        assert(j + 1 == i);
    }
}

/// Reading the colour of a text object gives back the colour it was given
/// (by `new` or `set_colour`).
pub proof fn lemma_colour_round_trip(text: TextContent, colour: (u8, u8, u8, u8))
    requires
        text.colour_value() == packed(colour.0, colour.1, colour.2, colour.3),
    ensures
        unpacked(text.colour_value()) == colour,
{
    lemma_unpack_pack(colour.0, colour.1, colour.2, colour.3);
}

} // verus!
