//! The rendering of a page, step by step.

use crate::jb2::Jb2PartialImage;
use crate::pdf::timing::DjvuPdfTimingStage;
use crate::render::bitmap::{BitmapModel, PageBitmap};
use crate::render::compose::{
    from_jb2, layer_view, lemma_with_masks_fault, paint_background, paint_mask, present_layers,
};
use crate::render::dictionaries::Jb2DictionaryCache;
use crate::render::plan::{
    background_of, base_of, foreground_of, full_render, masks_of, masks_show, render_shows,
    with_background, with_masks, LayerModel, MaskModel, PageRenderPlan, PartialPageRender,
    PlanModel, RenderModel, RenderedIw44Layer,
};
use crate::render::RenderError;
use vstd::prelude::*;

verus! {

/// A page that is being rendered, by how far that has come.
pub enum PageRendering {
    /// Nothing was done.
    Started,
    /// A background layer was decoded, and is to be painted.
    Background { bitmap: PageBitmap, background: RenderedIw44Layer },
    /// The background is painted, and the foreground layer is to be decoded.
    Behind { bitmap: PageBitmap, background: Option<RenderedIw44Layer> },
    /// The layers are decoded, and the bitonal images are to be decoded.
    Layered {
        bitmap: PageBitmap,
        background: Option<RenderedIw44Layer>,
        foreground: Option<RenderedIw44Layer>,
    },
    /// The first masks are painted, and the next is to be painted.
    Masked {
        bitmap: PageBitmap,
        background: Option<RenderedIw44Layer>,
        foreground: Option<RenderedIw44Layer>,
        masks: Vec<(usize, Jb2PartialImage)>,
        next: usize,
    },
    /// All is done.
    Rendered(PartialPageRender),
}

/// Whether a bitmap is the page with its background.
pub open spec fn behind_shows(
    bitmap: PageBitmap,
    background: Option<LayerModel>,
    plan: PlanModel,
    bytes: Seq<u8>,
) -> bool {
    &&& bitmap.wf()
    &&& background_of(plan, bytes) == Ok::<Option<LayerModel>, Seq<char>>(background)
    &&& behind(plan, background) == Ok::<BitmapModel, Seq<char>>(bitmap@)
}

/// The page with its background, or why there is none.
pub open spec fn behind(plan: PlanModel, background: Option<LayerModel>) -> Result<
    BitmapModel,
    Seq<char>,
> {
    match base_of(plan.info) {
        Err(message) => Err(message),
        Ok(base) => with_background(base, background),
    }
}

impl PageRendering {
    /// Whether what was done so far is right for a page.
    pub open spec fn holds(&self, plan: PlanModel, bytes: Seq<u8>) -> bool {
        match self {
            PageRendering::Started => true,
            PageRendering::Background { bitmap, background } => {
                &&& bitmap.wf()
                &&& base_of(plan.info) == Ok::<BitmapModel, Seq<char>>(bitmap@)
                &&& background_of(plan, bytes) == Ok::<Option<LayerModel>, Seq<char>>(
                    Some(background@),
                )
            },
            PageRendering::Behind { bitmap, background } => {
                behind_shows(*bitmap, layer_view(*background), plan, bytes)
            },
            PageRendering::Layered { bitmap, background, foreground } => {
                &&& behind_shows(*bitmap, layer_view(*background), plan, bytes)
                &&& foreground_of(plan, bytes) == Ok::<Option<LayerModel>, Seq<char>>(
                    layer_view(*foreground),
                )
            },
            PageRendering::Masked { bitmap, background, foreground, masks, next } => {
                let (back, fore) = (layer_view(*background), layer_view(*foreground));
                &&& bitmap.wf()
                &&& background_of(plan, bytes) == Ok::<Option<LayerModel>, Seq<char>>(back)
                &&& behind(plan, back) is Ok
                &&& foreground_of(plan, bytes) == Ok::<Option<LayerModel>, Seq<char>>(fore)
                &&& masks_of(plan, bytes) is Ok
                &&& masks_show(masks@, masks_of(plan, bytes)->Ok_0)
                &&& *next < masks@.len()
                &&& with_masks(
                    behind(plan, back)->Ok_0,
                    masks_of(plan, bytes)->Ok_0,
                    fore,
                    *next as int,
                ) == Ok::<BitmapModel, Seq<char>>(bitmap@)
            },
            PageRendering::Rendered(render) => {
                &&& full_render(plan, bytes) is Ok
                &&& render_shows(*render, full_render(plan, bytes)->Ok_0)
            },
        }
    }

    /// How many kinds of steps are ahead.
    pub open spec fn rank(&self) -> nat {
        match self {
            PageRendering::Started => 5,
            PageRendering::Background { .. } => 4,
            PageRendering::Behind { .. } => 3,
            PageRendering::Layered { .. } => 2,
            PageRendering::Masked { .. } => 1,
            PageRendering::Rendered(_) => 0,
        }
    }

    /// How many masks are to be painted, once they are decoded.
    pub open spec fn left(&self) -> int {
        match self {
            PageRendering::Masked { masks, next, .. } => masks@.len() - *next,
            _ => 0,
        }
    }

    /// Whether one step leads from here to there.
    pub open spec fn leads_to(&self, next: PageRendering) -> bool {
        match self {
            PageRendering::Started => {
                ||| next is Background
                ||| next matches PageRendering::Behind { background, .. } && background is None
            },
            PageRendering::Background { .. } => next is Behind,
            PageRendering::Behind { .. } => next is Layered,
            PageRendering::Layered { .. } => {
                ||| next is Rendered
                ||| next matches PageRendering::Masked { next, .. } && next == 0
            },
            PageRendering::Masked { masks, next: at, .. } => {
                ||| next is Rendered && *at == masks@.len() - 1
                ||| next matches PageRendering::Masked { masks: same, next, .. } && same@ == masks@
                    && next == *at + 1
            },
            PageRendering::Rendered(_) => next == *self,
        }
    }

    /// What kind of step is next: layers and bitonal images are decoded, and then painted.
    pub open spec fn stage(&self) -> DjvuPdfTimingStage {
        match self {
            PageRendering::Started => DjvuPdfTimingStage::Iw44Decode,
            PageRendering::Background { .. } => DjvuPdfTimingStage::Iw44Composite,
            PageRendering::Behind { .. } => DjvuPdfTimingStage::Iw44Decode,
            PageRendering::Layered { .. } => DjvuPdfTimingStage::Jb2Decode,
            PageRendering::Masked { .. } => DjvuPdfTimingStage::MaskComposite,
            PageRendering::Rendered(_) => DjvuPdfTimingStage::ImageBytes,
        }
    }

    /// What kind of step is next; of a page that is rendered, that its image is made.
    #[must_use]
    pub fn next_stage(&self) -> (stage: DjvuPdfTimingStage)
        ensures
            stage == self.stage(),
    {
        match self {
            PageRendering::Started => DjvuPdfTimingStage::Iw44Decode,
            PageRendering::Background { .. } => DjvuPdfTimingStage::Iw44Composite,
            PageRendering::Behind { .. } => DjvuPdfTimingStage::Iw44Decode,
            PageRendering::Layered { .. } => DjvuPdfTimingStage::Jb2Decode,
            PageRendering::Masked { .. } => DjvuPdfTimingStage::MaskComposite,
            PageRendering::Rendered(_) => DjvuPdfTimingStage::ImageBytes,
        }
    }

    /// Takes the next step, if there is one.
    pub fn advance(
        self,
        plan: &PageRenderPlan<'_>,
        bytes: &[u8],
        cache: &mut Jb2DictionaryCache,
    ) -> (next: Result<PageRendering, RenderError>)
        requires
            self.holds(plan@, bytes@),
            old(cache).holds(bytes@),
        ensures
            final(cache).holds(bytes@),
            match next {
                Ok(next) => {
                    &&& next.holds(plan@, bytes@)
                    &&& self.leads_to(next)
                    &&& self !is Rendered ==> next.rank() < self.rank() || next.rank()
                        == self.rank() && 0 <= next.left() < self.left()
                },
                Err(error) => full_render(plan@, bytes@) == Err::<RenderModel, Seq<char>>(error@),
            },
    {
        match self {
            PageRendering::Started => start_rendering(plan, bytes),
            PageRendering::Background { bitmap, background } => {
                let mut bitmap = bitmap;
                let layer = Some(background);
                match paint_background(&mut bitmap, &layer) {
                    Err(error) => Err(error),
                    Ok(_) => Ok(PageRendering::Behind { bitmap, background: layer }),
                }
            },
            PageRendering::Behind { bitmap, background } => match plan.foreground_iw44_layer(
                bytes,
            ) {
                Err(error) => Err(error),
                Ok(foreground) => Ok(PageRendering::Layered { bitmap, background, foreground }),
            },
            PageRendering::Layered { bitmap, background, foreground } => {
                match plan.bitonal_masks_with_cache(bytes, cache) {
                    Err(error) => Err(from_jb2(error)),
                    Ok(masks) => Ok(
                        masked(
                            bitmap,
                            background,
                            foreground,
                            masks,
                            0,
                            Ghost(plan@),
                            Ghost(bytes@),
                        ),
                    ),
                }
            },
            PageRendering::Masked { bitmap, background, foreground, masks, next } => paint_next(
                bitmap,
                background,
                foreground,
                masks,
                next,
                Ghost(plan@),
                Ghost(bytes@),
            ),
            PageRendering::Rendered(render) => Ok(PageRendering::Rendered(render)),
        }
    }
}

/// Makes the white page, and decodes the background layer.
fn start_rendering(plan: &PageRenderPlan<'_>, bytes: &[u8]) -> (next: Result<
    PageRendering,
    RenderError,
>)
    ensures
        match next {
            Ok(next) => next.holds(plan@, bytes@) && PageRendering::Started.leads_to(next),
            Err(error) => full_render(plan@, bytes@) == Err::<RenderModel, Seq<char>>(error@),
        },
{
    let bitmap = match plan.checked_base_bitmap() {
        Err(error) => {
            return Err(error);
        },
        Ok(bitmap) => bitmap,
    };
    match plan.background_iw44_layer(bytes) {
        Err(error) => Err(error),
        Ok(Some(background)) => Ok(PageRendering::Background { bitmap, background }),
        Ok(None) => {
            let background: Option<RenderedIw44Layer> = None;
            Ok(PageRendering::Behind { bitmap, background })
        },
    }
}

/// A page with its first masks painted: it is rendered, if that is all of them.
fn masked(
    bitmap: PageBitmap,
    background: Option<RenderedIw44Layer>,
    foreground: Option<RenderedIw44Layer>,
    masks: Vec<(usize, Jb2PartialImage)>,
    next: usize,
    Ghost(plan): Ghost<PlanModel>,
    Ghost(bytes): Ghost<Seq<u8>>,
) -> (page: PageRendering)
    requires
        bitmap.wf(),
        background_of(plan, bytes) == Ok::<Option<LayerModel>, Seq<char>>(layer_view(background)),
        behind(plan, layer_view(background)) is Ok,
        foreground_of(plan, bytes) == Ok::<Option<LayerModel>, Seq<char>>(layer_view(foreground)),
        masks_of(plan, bytes) is Ok,
        masks_show(masks@, masks_of(plan, bytes)->Ok_0),
        next <= masks@.len(),
        with_masks(
            behind(plan, layer_view(background))->Ok_0,
            masks_of(plan, bytes)->Ok_0,
            layer_view(foreground),
            next as int,
        ) == Ok::<BitmapModel, Seq<char>>(bitmap@),
    ensures
        page.holds(plan, bytes),
        next < masks@.len() ==> page == (PageRendering::Masked {
            bitmap,
            background,
            foreground,
            masks,
            next,
        }),
        next == masks@.len() ==> page is Rendered,
{
    if next < masks.len() {
        PageRendering::Masked { bitmap, background, foreground, masks, next }
    } else {
        let iw44_layers = present_layers(background, foreground);
        PageRendering::Rendered(PartialPageRender { bitmap, iw44_layers, bitonal_masks: masks })
    }
}

/// Paints the next mask.
fn paint_next(
    bitmap: PageBitmap,
    background: Option<RenderedIw44Layer>,
    foreground: Option<RenderedIw44Layer>,
    masks: Vec<(usize, Jb2PartialImage)>,
    next: usize,
    Ghost(plan): Ghost<PlanModel>,
    Ghost(bytes): Ghost<Seq<u8>>,
) -> (page: Result<PageRendering, RenderError>)
    requires
        (PageRendering::Masked { bitmap, background, foreground, masks, next }).holds(plan, bytes),
    ensures
        match page {
            Ok(page) => {
                &&& page.holds(plan, bytes)
                &&& (PageRendering::Masked {
                    bitmap,
                    background,
                    foreground,
                    masks,
                    next,
                }).leads_to(page)
            },
            Err(error) => full_render(plan, bytes) == Err::<RenderModel, Seq<char>>(error@),
        },
{
    let mut bitmap = bitmap;
    let ghost models: Seq<(usize, MaskModel)> = masks_of(plan, bytes)->Ok_0;
    let ghost under = behind(plan, layer_view(background))->Ok_0;
    assert(next < masks.len());
    assert(masks@[next as int].0 == models[next as int].0);
    match paint_mask(
        &mut bitmap,
        masks[next].0,
        &masks[next].1,
        &foreground,
        Ghost(models[next as int].1),
    ) {
        Err(error) => {
            proof {
                lemma_with_masks_fault(
                    under,
                    models,
                    layer_view(foreground),
                    next + 1,
                    models.len() as int,
                );
            }
            Err(error)
        },
        Ok(_) => Ok(
            masked(
                bitmap,
                background,
                foreground,
                masks,
                next + 1,
                Ghost(plan),
                Ghost(bytes),
            ),
        ),
    }
}

} // verus!
