//! The work on a page of a PDF file, step by step.

use crate::jb2::Jb2PartialImage;
use crate::pdf::document::{
    conversion_step, direct_image, lemma_prepared_width, next_prepared, prepared,
    ConversionModel, DjvuPdfError, DjvuPdfResult, DocumentConversion, PdfFault, PreparedModel,
    PreparedPage,
};
use crate::pdf::image::{image_object, mask_images, mask_pages, PdfPageImage};
use crate::pdf::timing::{DjvuPdfTimingEvent, DjvuPdfTimingStage};
use crate::render::compose::from_jb2;
use crate::render::document::numbered_plan;
use crate::render::plan::{
    full_render, mask_shows, masks_of, masks_show, render_shows, PageRenderPlan,
    PartialPageRender, PlanModel, RenderModel,
};
use crate::render::steps::PageRendering;
use vstd::prelude::*;

verus! {

/// A page that is being added to a PDF file, by how far that has come.
pub enum PageWork<'a> {
    /// Nothing was done.
    Unplanned,
    /// The page has no layers, and its bitonal images are to be decoded.
    Bitonal(PageRenderPlan<'a>),
    /// The page is nothing but one mask of its size, of which the image is to be made.
    Mask(PageRenderPlan<'a>, Jb2PartialImage),
    /// The page is rendered; its image is to be made of that.
    Rendering(PageRenderPlan<'a>, PageRendering),
    /// The image is made, and is to be encoded.
    Prepared(PreparedPage),
    /// The image is encoded, and the page is to be written.
    Encoded(PreparedPage, Vec<u8>),
    /// All is done.
    Added(PreparedPage),
}

/// A step of the work on a page: what kind it is, and whether its time is listed with the
/// page or with the whole file alone.
#[derive(Debug, Clone, Copy, PartialEq, Eq, Structural)]
pub struct PageStep {
    pub stage: DjvuPdfTimingStage,
    pub of_page: bool,
}

impl PageStep {
    /// The time that the step took.
    #[must_use]
    pub fn timing_event(&self, page_number: usize, nanoseconds: u64) -> (event: DjvuPdfTimingEvent)
        ensures
            event == (DjvuPdfTimingEvent {
                stage: self.stage,
                nanoseconds,
                page_number: if self.of_page {
                    Some(page_number)
                } else {
                    None
                },
                page_kind: None,
            }),
    {
        if self.of_page {
            DjvuPdfTimingEvent::page(self.stage, page_number, nanoseconds)
        } else {
            DjvuPdfTimingEvent::aggregate(self.stage, nanoseconds)
        }
    }
}

/// Whether a plan is that of the next page.
pub open spec fn plans_next(plan: PlanModel, state: ConversionModel) -> bool {
    numbered_plan(state.bytes, state.forms, state.entries, state.next_page) == Ok::<
        PlanModel,
        Seq<char>,
    >(plan)
}

/// Whether a page has no layers.
pub open spec fn without_layers(plan: PlanModel) -> bool {
    plan.background_layers.len() == 0 && plan.foreground_layers.len() == 0
}

impl<'a> PageWork<'a> {
    /// Whether what was done so far is right for the next page.
    pub open spec fn fits(&self, state: ConversionModel) -> bool {
        match self {
            PageWork::Unplanned => true,
            PageWork::Bitonal(plan) => plans_next(plan@, state) && without_layers(plan@),
            PageWork::Mask(plan, image) => {
                let masks = masks_of(plan@, state.bytes);
                &&& plans_next(plan@, state)
                &&& without_layers(plan@)
                &&& masks is Ok
                &&& masks->Ok_0.len() == 1
                &&& mask_shows(*image, masks->Ok_0[0].1)
                &&& image.mask.width == plan@.info.width
                &&& image.mask.height == plan@.info.height
            },
            PageWork::Rendering(plan, rendering) => {
                &&& plans_next(plan@, state)
                &&& direct_image(plan@, state.bytes) is Ok
                &&& direct_image(plan@, state.bytes)->Ok_0 is None
                &&& rendering.holds(plan@, state.bytes)
            },
            PageWork::Prepared(page) => {
                &&& next_prepared(state) is Ok
                &&& page.shows(next_prepared(state)->Ok_0)
            },
            PageWork::Encoded(page, object) => {
                &&& conversion_step(state) is Ok
                &&& page.shows(conversion_step(state)->Ok_0.1)
                &&& object@ == image_object(conversion_step(state)->Ok_0.1.image())
            },
            PageWork::Added(_) => true,
        }
    }

    /// How many kinds of steps are ahead.
    pub open spec fn rank(&self) -> nat {
        match self {
            PageWork::Unplanned => 6,
            PageWork::Bitonal(_) => 5,
            PageWork::Mask(..) => 4,
            PageWork::Rendering(..) => 3,
            PageWork::Prepared(_) => 2,
            PageWork::Encoded(..) => 1,
            PageWork::Added(_) => 0,
        }
    }

    /// How much of rendering is ahead, once the page is rendered.
    pub open spec fn rendering(&self) -> (nat, int) {
        match self {
            PageWork::Rendering(_, rendering) => (rendering.rank(), rendering.left()),
            _ => (0, 0),
        }
    }

    /// Whether one step leads from here to there.
    pub open spec fn leads_to(&self, next: PageWork<'a>) -> bool {
        match self {
            PageWork::Unplanned => {
                ||| next is Bitonal
                ||| next matches PageWork::Rendering(plan, rendering) && !without_layers(plan@)
                    && rendering is Started
            },
            PageWork::Bitonal(_) => {
                ||| next is Mask
                ||| next matches PageWork::Rendering(_, rendering) && rendering is Started
            },
            PageWork::Mask(..) => next matches PageWork::Prepared(page) && page is Direct,
            PageWork::Rendering(_, rendering) => if rendering is Rendered {
                next matches PageWork::Prepared(page) && page is Rendered
            } else {
                next matches PageWork::Rendering(_, further) && rendering.leads_to(further)
            },
            PageWork::Prepared(page) => next matches PageWork::Encoded(same, _) && same == page,
            PageWork::Encoded(page, _) => next == PageWork::<'a>::Added(*page),
            PageWork::Added(_) => false,
        }
    }

    /// What step is next.
    pub open spec fn step(&self) -> Option<PageStep> {
        match self {
            PageWork::Unplanned => Some(
                PageStep { stage: DjvuPdfTimingStage::PagePlan, of_page: false },
            ),
            PageWork::Bitonal(_) => Some(
                PageStep { stage: DjvuPdfTimingStage::Jb2Decode, of_page: true },
            ),
            PageWork::Mask(..) => Some(
                PageStep { stage: DjvuPdfTimingStage::ImageBytes, of_page: true },
            ),
            PageWork::Rendering(_, rendering) => Some(
                PageStep { stage: rendering.stage(), of_page: true },
            ),
            PageWork::Prepared(page) => Some(
                PageStep {
                    stage: if page.picture()@ is BitonalMask {
                        DjvuPdfTimingStage::CcittEncode
                    } else {
                        DjvuPdfTimingStage::ImageBytes
                    },
                    of_page: false,
                },
            ),
            PageWork::Encoded(..) => Some(
                PageStep { stage: DjvuPdfTimingStage::PdfObjectWrite, of_page: false },
            ),
            PageWork::Added(_) => None,
        }
    }

    /// What step is next, if there is one.
    #[must_use]
    pub fn next_step(&self) -> (step: Option<PageStep>)
        ensures
            step == self.step(),
    {
        match self {
            PageWork::Unplanned => Some(
                PageStep { stage: DjvuPdfTimingStage::PagePlan, of_page: false },
            ),
            PageWork::Bitonal(_) => Some(
                PageStep { stage: DjvuPdfTimingStage::Jb2Decode, of_page: true },
            ),
            PageWork::Mask(_, _) => Some(
                PageStep { stage: DjvuPdfTimingStage::ImageBytes, of_page: true },
            ),
            PageWork::Rendering(_, rendering) => Some(
                PageStep { stage: rendering.next_stage(), of_page: true },
            ),
            PageWork::Prepared(page) => {
                let stage = if page.image().is_bitonal_mask() {
                    DjvuPdfTimingStage::CcittEncode
                } else {
                    DjvuPdfTimingStage::ImageBytes
                };
                Some(PageStep { stage, of_page: false })
            },
            PageWork::Encoded(_, _) => Some(
                PageStep { stage: DjvuPdfTimingStage::PdfObjectWrite, of_page: false },
            ),
            PageWork::Added(_) => None,
        }
    }
}

impl PreparedPage {
    /// The image of the page.
    pub open spec fn picture(&self) -> PdfPageImage {
        match self {
            PreparedPage::Direct(image) => *image,
            PreparedPage::Rendered(_, image) => *image,
        }
    }

    /// The image of the page.
    #[must_use]
    pub fn image(&self) -> (image: &PdfPageImage)
        ensures
            *image == self.picture(),
    {
        match self {
            PreparedPage::Direct(image) => image,
            PreparedPage::Rendered(_, image) => image,
        }
    }
}

/// The image of a page that was rendered, with that.
fn prepare_render(render: PartialPageRender, Ghost(plan): Ghost<PlanModel>, Ghost(bytes): Ghost<
    Seq<u8>,
>) -> (page: PreparedPage)
    requires
        direct_image(plan, bytes) is Ok,
        direct_image(plan, bytes)->Ok_0 is None,
        full_render(plan, bytes) is Ok,
        render_shows(render, full_render(plan, bytes)->Ok_0),
    ensures
        page is Rendered,
        prepared(plan, bytes) is Ok,
        page.shows(prepared(plan, bytes)->Ok_0),
{
    reveal(prepared);
    let ghost model: RenderModel = full_render(plan, bytes)->Ok_0;
    assert forall|i: int| 0 <= i < render.bitonal_masks@.len() implies (
    #[trigger] render.bitonal_masks@[i]).1.mask.wf() by {
        assert(render.bitonal_masks@[i].0 == model.masks[i].0);
    }
    let image: PdfPageImage = PdfPageImage::from_render(&render);
    assert(mask_images(render.bitonal_masks@) =~= mask_pages(model.masks)) by {
        assert forall|i: int| 0 <= i < model.masks.len() implies mask_images(
            render.bitonal_masks@,
        )[i] == mask_pages(model.masks)[i] by {
            assert(render.bitonal_masks@[i].0 == model.masks[i].0);
        }
    }
    PreparedPage::Rendered(render, image)
}

/// The one mask that a page is, if it is nothing but one of its size.
fn only_mask(
    masks: Vec<(usize, Jb2PartialImage)>,
    plan: &PageRenderPlan<'_>,
    Ghost(bytes): Ghost<Seq<u8>>,
) -> (mask: Option<Jb2PartialImage>)
    requires
        without_layers(plan@),
        masks_of(plan@, bytes) is Ok,
        masks_show(masks@, masks_of(plan@, bytes)->Ok_0),
    ensures
        match mask {
            Some(image) => {
                &&& masks_of(plan@, bytes)->Ok_0.len() == 1
                &&& mask_shows(image, masks_of(plan@, bytes)->Ok_0[0].1)
                &&& image.mask.width == plan@.info.width
                &&& image.mask.height == plan@.info.height
            },
            None => direct_image(plan@, bytes) is Ok && direct_image(plan@, bytes)->Ok_0 is None,
        },
{
    let ghost models = masks_of(plan@, bytes)->Ok_0;
    let mut masks = masks;
    if masks.len() != 1 {
        return None;
    }
    assert(masks@[0].0 == models[0].0);
    match masks.pop() {
        None => None,
        Some((_, image)) => {
            if image.mask.width == plan.info.width as u32 && image.mask.height
                == plan.info.height as u32 {
                Some(image)
            } else {
                None
            }
        },
    }
}

impl<'a> DocumentConversion<'a> {
    /// Takes the next step of the work on the next page; with the last of them the page is
    /// added.
    pub fn advance(&mut self, work: PageWork<'a>) -> (next: DjvuPdfResult<PageWork<'a>>)
        requires
            old(self).wf(),
            old(self).next_page <= old(self).end_page,
            work.fits(old(self)@),
            work !is Added,
        ensures
            match next {
                Ok(next) => {
                    &&& final(self).wf()
                    &&& work.leads_to(next)
                    &&& next !is Added ==> final(self)@ == old(self)@ && next.fits(final(self)@)
                        && final(self).next_page == old(self).next_page
                        && final(self).end_page == old(self).end_page
                    &&& next matches PageWork::Added(page) ==> {
                        &&& conversion_step(old(self)@) is Ok
                        &&& final(self)@ == conversion_step(old(self)@)->Ok_0.0
                        &&& page.shows(conversion_step(old(self)@)->Ok_0.1)
                    }
                    &&& next.rank() < work.rank() || next.rank() == work.rank() && (
                    next.rendering().0 < work.rendering().0 || next.rendering().0
                        == work.rendering().0 && 0 <= next.rendering().1 < work.rendering().1)
                },
                Err(error) => conversion_step(old(self)@) == Err::<
                    (ConversionModel, PreparedModel),
                    PdfFault,
                >(error@),
            },
    {
        reveal(conversion_step);
        match work {
            PageWork::Unplanned => match self.plan_next_page() {
                Err(error) => Err(DjvuPdfError::Parse(error)),
                Ok(plan) => if plan.background_layers.len() > 0 || plan.foreground_layers.len()
                    > 0 {
                    Ok(PageWork::Rendering(plan, PageRendering::Started))
                } else {
                    Ok(PageWork::Bitonal(plan))
                },
            },
            PageWork::Bitonal(plan) => {
                reveal(prepared);
                match plan.bitonal_masks_with_cache(self.bytes, &mut self.cache) {
                    Err(error) => Err(DjvuPdfError::Render(from_jb2(error))),
                    Ok(masks) => match only_mask(masks, &plan, Ghost(self.bytes@)) {
                        Some(image) => Ok(PageWork::Mask(plan, image)),
                        None => Ok(PageWork::Rendering(plan, PageRendering::Started)),
                    },
                }
            },
            PageWork::Mask(plan, image) => {
                reveal(prepared);
                let picture = PdfPageImage::BitonalMask {
                    width: image.mask.width,
                    height: image.mask.height,
                    dpi: plan.info.dpi,
                    mask: image.mask.to_image_mask_bytes(),
                };
                Ok(PageWork::Prepared(PreparedPage::Direct(picture)))
            },
            PageWork::Rendering(plan, rendering) => match rendering {
                PageRendering::Rendered(render) => Ok(
                    PageWork::Prepared(
                        prepare_render(render, Ghost(plan@), Ghost(self.bytes@)),
                    ),
                ),
                _ => {
                    reveal(prepared);
                    match rendering.advance(&plan, self.bytes, &mut self.cache) {
                        Err(error) => Err(DjvuPdfError::Render(error)),
                        Ok(further) => Ok(PageWork::Rendering(plan, further)),
                    }
                },
            },
            PageWork::Prepared(page) => {
                proof {
                    let plan = numbered_plan(
                        self@.bytes,
                        self@.forms,
                        self@.entries,
                        self@.next_page,
                    )->Ok_0;
                    lemma_prepared_width(plan, self.bytes@);
                }
                match self.file.encode_image(page.image()) {
                    Err(error) => Err(DjvuPdfError::Pdf(error)),
                    Ok(object) => Ok(PageWork::Encoded(page, object)),
                }
            },
            PageWork::Encoded(page, object) => {
                match self.file.write_page(page.image(), object.as_slice()) {
                    Err(error) => Err(DjvuPdfError::Pdf(error)),
                    Ok(_) => {
                        self.next_page = self.next_page + 1;
                        Ok(PageWork::Added(page))
                    },
                }
            },
            PageWork::Added(page) => Ok(PageWork::Added(page)),
        }
    }
}

} // verus!
