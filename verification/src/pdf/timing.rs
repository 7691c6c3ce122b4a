//! How long the stages of a conversion take.

use crate::ranking::{rank_insert, rank_place, ranked, ranked_prefix};
use crate::iw44::color::at_most;
use vstd::prelude::*;

verus! {

/// A stage of a conversion.
#[derive(Debug, Clone, Copy, Eq, PartialEq, Structural)]
pub enum DjvuPdfTimingStage {
    Setup,
    TextExtraction,
    PagePlan,
    DirectBitonal,
    FallbackRender,
    Jb2Decode,
    Iw44Decode,
    Iw44Composite,
    MaskComposite,
    ImageBytes,
    CcittEncode,
    PdfObjectWrite,
    PdfWrite,
    PageTotal,
}

/// How a page is converted.
#[derive(Debug, Clone, Copy, Eq, PartialEq, Structural)]
pub enum DjvuPdfPageKind {
    DirectBitonal,
    FallbackRgb,
}

/// The time in nanoseconds that a stage took, on a page or on the whole.
#[derive(Debug, Clone, Copy, Eq, PartialEq, Structural)]
pub struct DjvuPdfTimingEvent {
    pub stage: DjvuPdfTimingStage,
    pub nanoseconds: u64,
    pub page_number: Option<usize>,
    pub page_kind: Option<DjvuPdfPageKind>,
}

/// The times that stages took, each stage once.
pub type StageTimes = Seq<(DjvuPdfTimingStage, u128)>;

/// The times that the stages of a page took.
#[derive(Debug, Clone, Eq, PartialEq)]
pub struct PdfPageTiming {
    pub page_number: usize,
    pub kind: Option<DjvuPdfPageKind>,
    pub total: u128,
    pub stages: Vec<(DjvuPdfTimingStage, u128)>,
}

/// The times that the stages of a conversion took.
#[derive(Debug, Clone, Eq, PartialEq)]
pub struct PdfTimingSummary {
    pub events: u64,
    pub stages: Vec<(DjvuPdfTimingStage, u128)>,
    pub pages: Vec<PdfPageTiming>,
    pub direct_bitonal_pages: u64,
    pub fallback_rgb_pages: u64,
}

/// The times of a page, as a value.
#[verifier::ext_equal]
pub struct PageTimingModel {
    pub page_number: usize,
    pub kind: Option<DjvuPdfPageKind>,
    pub total: int,
    pub stages: StageTimes,
}

/// The times of a conversion, as a value.
#[verifier::ext_equal]
pub struct TimingModel {
    pub stages: StageTimes,
    pub pages: Seq<PageTimingModel>,
    pub direct_bitonal_pages: int,
    pub fallback_rgb_pages: int,
}

impl View for PdfPageTiming {
    type V = PageTimingModel;

    open spec fn view(&self) -> PageTimingModel {
        PageTimingModel {
            page_number: self.page_number,
            kind: self.kind,
            total: self.total as int,
            stages: self.stages@,
        }
    }
}

/// The times of pages by their values.
pub open spec fn pages_view(pages: Seq<PdfPageTiming>) -> Seq<PageTimingModel> {
    Seq::new(pages.len(), |i: int| pages[i]@)
}

impl View for PdfTimingSummary {
    type V = TimingModel;

    open spec fn view(&self) -> TimingModel {
        TimingModel {
            stages: self.stages@,
            pages: pages_view(self.pages@),
            direct_bitonal_pages: self.direct_bitonal_pages as int,
            fallback_rgb_pages: self.fallback_rgb_pages as int,
        }
    }
}

/// Where a stage first stands among the first `count` of a list.
pub open spec fn stage_place(stages: StageTimes, stage: DjvuPdfTimingStage, from: int) -> int
    decreases stages.len() - from,
{
    if from >= stages.len() || stages[from].0 == stage {
        from
    } else {
        stage_place(stages, stage, from + 1)
    }
}

/// The time that a stage took; none if it is not listed.
pub open spec fn stage_time(stages: StageTimes, stage: DjvuPdfTimingStage) -> int {
    let place = stage_place(stages, stage, 0);
    if place < stages.len() {
        stages[place].1 as int
    } else {
        0
    }
}

/// The times with more for a stage.
pub open spec fn with_time(
    stages: StageTimes,
    stage: DjvuPdfTimingStage,
    nanoseconds: int,
) -> StageTimes {
    let place = stage_place(stages, stage, 0);
    if place < stages.len() {
        stages.update(place, (stage, (stages[place].1 + nanoseconds) as u128))
    } else {
        stages.push((stage, nanoseconds as u128))
    }
}

/// Where a page first stands in a list from a place on.
pub open spec fn page_place(pages: Seq<PageTimingModel>, page_number: usize, from: int) -> int
    decreases pages.len() - from,
{
    if from >= pages.len() || pages[from].page_number == page_number {
        from
    } else {
        page_place(pages, page_number, from + 1)
    }
}

/// The times of a page with those of an event added.
pub open spec fn page_with(page: PageTimingModel, event: DjvuPdfTimingEvent) -> PageTimingModel {
    PageTimingModel {
        page_number: page.page_number,
        kind: if event.page_kind is Some {
            event.page_kind
        } else {
            page.kind
        },
        total: page.total + event.nanoseconds,
        stages: with_time(page.stages, event.stage, event.nanoseconds as int),
    }
}

/// A page without times.
pub open spec fn untimed_page(page_number: usize) -> PageTimingModel {
    PageTimingModel { page_number, kind: None, total: 0, stages: Seq::empty() }
}

/// The pages with one listed that was not.
pub open spec fn with_page(pages: Seq<PageTimingModel>, page_number: usize) -> Seq<
    PageTimingModel,
> {
    if page_place(pages, page_number, 0) < pages.len() {
        pages
    } else {
        pages.push(untimed_page(page_number))
    }
}

/// The times of a conversion with those of an event added. A page counts as of a kind when
/// its kind is first told.
pub open spec fn recorded(model: TimingModel, event: DjvuPdfTimingEvent) -> TimingModel {
    let stages = with_time(model.stages, event.stage, event.nanoseconds as int);
    match event.page_number {
        None => TimingModel { stages, ..model },
        Some(page_number) => {
            let pages = with_page(model.pages, page_number);
            let place = page_place(pages, page_number, 0);
            let first = pages[place].kind is None;
            TimingModel {
                stages,
                pages: pages.update(place, page_with(pages[place], event)),
                direct_bitonal_pages: model.direct_bitonal_pages + if first && event.page_kind
                    == Some(DjvuPdfPageKind::DirectBitonal) {
                    1int
                } else {
                    0int
                },
                fallback_rgb_pages: model.fallback_rgb_pages + if first && event.page_kind
                    == Some(DjvuPdfPageKind::FallbackRgb) {
                    1int
                } else {
                    0int
                },
            }
        },
    }
}

/// No stage took longer than that many events can.
pub open spec fn times_bounded(stages: StageTimes, events: int) -> bool {
    forall|i: int| 0 <= i < stages.len() ==> (#[trigger] stages[i]).1 <= events * u64::MAX
}

/// No stage of a page, nor the page, took longer than that many events can.
pub open spec fn page_bounded(page: PageTimingModel, events: int) -> bool {
    times_bounded(page.stages, events) && 0 <= page.total <= events * u64::MAX
}

/// No stage of any page took longer than that many events can.
pub open spec fn pages_bounded(pages: Seq<PageTimingModel>, events: int) -> bool {
    forall|i: int| 0 <= i < pages.len() ==> page_bounded(#[trigger] pages[i], events)
}

proof fn lemma_stage_place(stages: StageTimes, stage: DjvuPdfTimingStage, from: int)
    requires
        0 <= from <= stages.len(),
    ensures
        from <= stage_place(stages, stage, from) <= stages.len(),
        stage_place(stages, stage, from) < stages.len() ==> stages[stage_place(
            stages,
            stage,
            from,
        )].0 == stage,
        forall|i: int|
            from <= i < stage_place(stages, stage, from) ==> (#[trigger] stages[i]).0 != stage,
    decreases stages.len() - from,
{
    if from < stages.len() && stages[from].0 != stage {
        lemma_stage_place(stages, stage, from + 1);
    }
}

proof fn lemma_stage_place_is_first(
    stages: StageTimes,
    stage: DjvuPdfTimingStage,
    from: int,
    place: int,
)
    requires
        0 <= from <= place <= stages.len(),
        forall|i: int| from <= i < place ==> (#[trigger] stages[i]).0 != stage,
        place < stages.len() ==> stages[place].0 == stage,
    ensures
        stage_place(stages, stage, from) == place,
    decreases place - from,
{
    if from < place {
        lemma_stage_place_is_first(stages, stage, from + 1, place);
    }
}

/// An event adds its time to its stage, and to no other.
pub proof fn lemma_time_goes_to_its_stage(
    stages: StageTimes,
    stage: DjvuPdfTimingStage,
    nanoseconds: int,
    other: DjvuPdfTimingStage,
)
    requires
        0 <= nanoseconds,
        stage_time(stages, stage) + nanoseconds <= u128::MAX,
    ensures
        stage_time(with_time(stages, stage, nanoseconds), other) == stage_time(stages, other) + (
        if other == stage {
            nanoseconds
        } else {
            0
        }),
{
    let more = with_time(stages, stage, nanoseconds);
    let place = stage_place(stages, stage, 0);
    let old_place = stage_place(stages, other, 0);
    lemma_stage_place(stages, stage, 0);
    lemma_stage_place(stages, other, 0);
    if other == stage {
        lemma_stage_place_is_first(more, other, 0, place);
    } else if old_place < stages.len() {
        lemma_stage_place_is_first(more, other, 0, old_place);
    } else {
        lemma_stage_place_is_first(more, other, 0, more.len() as int);
    }
}

/// Adds time to a stage.
fn add_time(
    stages: &mut Vec<(DjvuPdfTimingStage, u128)>,
    stage: DjvuPdfTimingStage,
    nanoseconds: u64,
    Ghost(events): Ghost<int>,
)
    requires
        0 <= events < u64::MAX,
        times_bounded(old(stages)@, events),
    ensures
        final(stages)@ == with_time(old(stages)@, stage, nanoseconds as int),
        times_bounded(final(stages)@, events + 1),
{
    assert(events * u64::MAX + u64::MAX == (events + 1) * u64::MAX) by (nonlinear_arith);
    assert(0 <= events * u64::MAX <= (u64::MAX - 1) * u64::MAX) by (nonlinear_arith)
        requires
            0 <= events < u64::MAX,
    ;
    let mut i: usize = 0;
    while i < stages.len()
        invariant
            i <= stages@.len(),
            stages@ == old(stages)@,
            stage_place(stages@, stage, 0) == stage_place(stages@, stage, i as int),
            0 <= events < u64::MAX,
            times_bounded(stages@, events),
            events * u64::MAX + u64::MAX == (events + 1) * u64::MAX,
            0 <= events * u64::MAX <= (u64::MAX - 1) * u64::MAX,
        decreases stages@.len() - i,
    {
        let (listed, time) = stages[i];
        if listed == stage {
            assert(stages@[i as int].1 <= events * u64::MAX);
            stages.set(i, (stage, time + nanoseconds as u128));
            return;
        }
        i = i + 1;
    }
    stages.push((stage, nanoseconds as u128));
}

/// The time that a stage took; none if it is not listed.
fn time_of(stages: &Vec<(DjvuPdfTimingStage, u128)>, stage: DjvuPdfTimingStage) -> (time: u128)
    ensures
        time == stage_time(stages@, stage),
{
    let mut i: usize = 0;
    while i < stages.len()
        invariant
            i <= stages@.len(),
            stage_place(stages@, stage, 0) == stage_place(stages@, stage, i as int),
        decreases stages@.len() - i,
    {
        let (listed, time) = stages[i];
        if listed == stage {
            return time;
        }
        i = i + 1;
    }
    0
}

impl DjvuPdfTimingEvent {
    /// The time that a stage took on the whole.
    pub fn aggregate(stage: DjvuPdfTimingStage, nanoseconds: u64) -> (event: Self)
        ensures
            event == (DjvuPdfTimingEvent {
                stage,
                nanoseconds,
                page_number: None,
                page_kind: None,
            }),
    {
        DjvuPdfTimingEvent { stage, nanoseconds, page_number: None, page_kind: None }
    }

    /// The time that a stage took on a page.
    pub fn page(stage: DjvuPdfTimingStage, page_number: usize, nanoseconds: u64) -> (event: Self)
        ensures
            event == (DjvuPdfTimingEvent {
                stage,
                nanoseconds,
                page_number: Some(page_number),
                page_kind: None,
            }),
    {
        DjvuPdfTimingEvent { stage, nanoseconds, page_number: Some(page_number), page_kind: None }
    }

    /// The time that a stage took on a page of a kind.
    pub fn page_kind(
        stage: DjvuPdfTimingStage,
        page_number: usize,
        page_kind: DjvuPdfPageKind,
        nanoseconds: u64,
    ) -> (event: Self)
        ensures
            event == (DjvuPdfTimingEvent {
                stage,
                nanoseconds,
                page_number: Some(page_number),
                page_kind: Some(page_kind),
            }),
    {
        DjvuPdfTimingEvent {
            stage,
            nanoseconds,
            page_number: Some(page_number),
            page_kind: Some(page_kind),
        }
    }
}

/// A stage that holds others does not count as the one that took longest.
pub open spec fn is_part(stage: DjvuPdfTimingStage) -> bool {
    !(stage is PageTotal || stage is DirectBitonal || stage is FallbackRender)
}

/// The stage among the first `count` of a list that took longest, of several the last.
pub open spec fn longest_stage(stages: StageTimes, count: int) -> Option<
    (DjvuPdfTimingStage, u128),
>
    decreases count,
{
    if count <= 0 {
        None
    } else {
        let before = longest_stage(stages, count - 1);
        let (stage, time) = stages[count - 1];
        if !is_part(stage) {
            before
        } else {
            match before {
                Some((_, longest)) if longest > time => before,
                _ => Some((stage, time)),
            }
        }
    }
}

/// The stage that is told to have taken longest is listed, is part of no other, and took no less
/// time than any other such stage; where none is told, no such stage is listed.
pub proof fn lemma_longest_stage(stages: StageTimes, count: int, index: int)
    requires
        0 <= index < count <= stages.len(),
    ensures
        is_part(stages[index].0) ==> (longest_stage(stages, count) matches Some((_, longest))
            && stages[index].1 <= longest),
        longest_stage(stages, count) matches Some(told) ==> stages.contains(told) && !(told.0 is
            PageTotal || told.0 is DirectBitonal || told.0 is FallbackRender),
    decreases count,
{
    let last = stages[count - 1];
    assert(stages.contains(last));
    if index < count - 1 {
        lemma_longest_stage(stages, count - 1, index);
    } else if count > 1 {
        lemma_longest_stage(stages, count - 1, 0);
    }
}

impl PdfPageTiming {
    /// The time that a stage took.
    #[must_use]
    pub fn stage(&self, stage: DjvuPdfTimingStage) -> (time: u128)
        ensures
            time == stage_time(self@.stages, stage),
    {
        time_of(&self.stages, stage)
    }

    /// The stage that took longest, without those that hold others.
    #[must_use]
    pub fn dominant_stage(&self) -> (dominant: Option<(DjvuPdfTimingStage, u128)>)
        ensures
            dominant == longest_stage(self@.stages, self@.stages.len() as int),
    {
        let mut dominant: Option<(DjvuPdfTimingStage, u128)> = None;
        let mut i: usize = 0;
        while i < self.stages.len()
            invariant
                i <= self.stages@.len(),
                dominant == longest_stage(self.stages@, i as int),
            decreases self.stages@.len() - i,
        {
            let (stage, time) = self.stages[i];
            let part: bool = stage != DjvuPdfTimingStage::PageTotal && stage
                != DjvuPdfTimingStage::DirectBitonal && stage
                != DjvuPdfTimingStage::FallbackRender;
            assert(part == is_part(stage));
            if part {
                let longer: bool = match dominant {
                    Some((_, longest)) => longest <= time,
                    None => true,
                };
                if longer {
                    dominant = Some((stage, time));
                }
            }
            i = i + 1;
        }
        dominant
    }
}

/// How long a page of a list took.
pub open spec fn page_weight(pages: Seq<PageTimingModel>) -> spec_fn(usize) -> int {
    |index: usize| stage_time(pages[index as int].stages, DjvuPdfTimingStage::PageTotal)
}

/// The numbers below a limit, in order.
pub open spec fn indices(count: nat) -> Seq<usize> {
    Seq::new(count, |i: int| i as usize)
}

/// The time told for a page, over all its stages; none if it is not listed.
pub open spec fn page_time(pages: Seq<PageTimingModel>, page_number: usize) -> int {
    let place = page_place(pages, page_number, 0);
    if place < pages.len() {
        pages[place].total
    } else {
        0
    }
}

proof fn lemma_page_place_found(
    pages: Seq<PageTimingModel>,
    page_number: usize,
    from: int,
    place: int,
)
    requires
        0 <= from <= place <= pages.len(),
        forall|i: int| from <= i < place ==> (#[trigger] pages[i]).page_number != page_number,
        place < pages.len() ==> pages[place].page_number == page_number,
    ensures
        page_place(pages, page_number, from) == place,
    decreases place - from,
{
    if from < place {
        lemma_page_place_found(pages, page_number, from + 1, place);
    }
}

proof fn lemma_page_place_first(pages: Seq<PageTimingModel>, page_number: usize, from: int)
    requires
        0 <= from <= pages.len(),
    ensures
        from <= page_place(pages, page_number, from) <= pages.len(),
        page_place(pages, page_number, from) < pages.len() ==> pages[page_place(
            pages,
            page_number,
            from,
        )].page_number == page_number,
        forall|i: int|
            from <= i < page_place(pages, page_number, from) ==> (#[trigger] pages[i]).page_number
                != page_number,
    decreases pages.len() - from,
{
    if from < pages.len() && pages[from].page_number != page_number {
        lemma_page_place_first(pages, page_number, from + 1);
    }
}

/// An event of a page adds its time to that page, and to no other; one without a page leaves
/// all pages as they are. A page's kind counts once: only where an event tells a kind is a
/// page of that kind more counted, and then no page of the other.
pub proof fn lemma_time_goes_to_its_page(
    model: TimingModel,
    event: DjvuPdfTimingEvent,
    other: usize,
)
    ensures
        page_time(recorded(model, event).pages, other) == page_time(model.pages, other) + (
        if event.page_number == Some(other) {
            event.nanoseconds as int
        } else {
            0
        }),
        event.page_number is None ==> recorded(model, event).pages == model.pages,
        recorded(model, event).stages == with_time(
            model.stages,
            event.stage,
            event.nanoseconds as int,
        ),
        model.direct_bitonal_pages <= recorded(model, event).direct_bitonal_pages
            <= model.direct_bitonal_pages + 1,
        model.fallback_rgb_pages <= recorded(model, event).fallback_rgb_pages
            <= model.fallback_rgb_pages + 1,
        event.page_kind != Some(DjvuPdfPageKind::DirectBitonal) ==> recorded(
            model,
            event,
        ).direct_bitonal_pages == model.direct_bitonal_pages,
        event.page_kind != Some(DjvuPdfPageKind::FallbackRgb) ==> recorded(
            model,
            event,
        ).fallback_rgb_pages == model.fallback_rgb_pages,
{
    if let Some(page_number) = event.page_number {
        let pages = with_page(model.pages, page_number);
        let more = recorded(model, event).pages;
        lemma_page_place_first(model.pages, page_number, 0);
        lemma_page_place_first(model.pages, other, 0);
        let place = page_place(model.pages, page_number, 0);
        if place == model.pages.len() {
            lemma_page_place_pushed(model.pages, page_number, 0);
        }
        assert(page_place(pages, page_number, 0) == place);
        assert(more == pages.update(place, page_with(pages[place], event)));
        let old_place = page_place(model.pages, other, 0);
        if other == page_number {
            lemma_page_place_found(more, other, 0, place);
        } else if old_place < model.pages.len() {
            assert(more[old_place] == model.pages[old_place]);
            assert forall|i: int| 0 <= i < old_place implies (#[trigger] more[i]).page_number
                != other by {
                assert(model.pages[i].page_number != other);
            }
            lemma_page_place_found(more, other, 0, old_place);
        } else {
            assert forall|i: int| 0 <= i < more.len() implies (#[trigger] more[i]).page_number
                != other by {
                if i < model.pages.len() {
                    assert(model.pages[i].page_number != other);
                }
            }
            lemma_page_place_found(more, other, 0, more.len() as int);
        }
    }
}

/// A page whose kind is told for the first time is counted among those of its kind.
pub proof fn lemma_kind_counted_once(model: TimingModel, event: DjvuPdfTimingEvent)
    requires
        event.page_number is Some,
        event.page_kind is Some,
    ensures
        page_place(model.pages, event.page_number->Some_0, 0) == model.pages.len() ==> recorded(
            model,
            event,
        ).direct_bitonal_pages + recorded(model, event).fallback_rgb_pages
            == model.direct_bitonal_pages + model.fallback_rgb_pages + 1,
        ({
            let once = recorded(model, event);
            let twice = recorded(once, event);
            &&& twice.direct_bitonal_pages == once.direct_bitonal_pages
            &&& twice.fallback_rgb_pages == once.fallback_rgb_pages
        }),
{
    let page_number = event.page_number->Some_0;
    let pages = with_page(model.pages, page_number);
    let once = recorded(model, event);
    lemma_page_place_first(model.pages, page_number, 0);
    let place = page_place(model.pages, page_number, 0);
    if place == model.pages.len() {
        lemma_page_place_pushed(model.pages, page_number, 0);
    }
    assert(once.pages == pages.update(place, page_with(pages[place], event)));
    assert forall|i: int| 0 <= i < place implies (#[trigger] once.pages[i]).page_number
        != page_number by {
        assert(model.pages[i].page_number != page_number);
    }
    lemma_page_place_found(once.pages, page_number, 0, place);
    if place == model.pages.len() {
        assert(pages[place] == untimed_page(page_number));
        assert(event.page_kind == Some(DjvuPdfPageKind::DirectBitonal) || event.page_kind == Some(
            DjvuPdfPageKind::FallbackRgb,
        )) by {
            match event.page_kind->Some_0 {
                DjvuPdfPageKind::DirectBitonal => {},
                DjvuPdfPageKind::FallbackRgb => {},
            }
        }
    }
}

proof fn lemma_page_place(pages: Seq<PageTimingModel>, page_number: usize, from: int)
    requires
        0 <= from <= pages.len(),
    ensures
        from <= page_place(pages, page_number, from) <= pages.len(),
    decreases pages.len() - from,
{
    if from < pages.len() && pages[from].page_number != page_number {
        lemma_page_place(pages, page_number, from + 1);
    }
}

proof fn lemma_page_place_pushed(
    pages: Seq<PageTimingModel>,
    page_number: usize,
    from: int,
)
    requires
        0 <= from <= pages.len(),
        page_place(pages, page_number, from) == pages.len(),
    ensures
        page_place(pages.push(untimed_page(page_number)), page_number, from) == pages.len(),
    decreases pages.len() - from,
{
    let more = pages.push(untimed_page(page_number));
    if from < pages.len() {
        assert(more[from] == pages[from]);
        lemma_page_place_pushed(pages, page_number, from + 1);
    }
}

proof fn lemma_ranked_index_push(
    count: nat,
    weight: spec_fn(usize) -> int,
)
    requires
        count < usize::MAX,
    ensures
        ranked(indices(count + 1), weight) == rank_insert(
            ranked(indices(count), weight),
            weight,
            count as usize,
        ),
{
    lemma_ranked_index_prefix(indices(count), indices(count + 1), weight, count as int);
}

proof fn lemma_ranked_index_prefix(
    left: Seq<usize>,
    right: Seq<usize>,
    weight: spec_fn(usize) -> int,
    count: int,
)
    requires
        0 <= count <= left.len(),
        count <= right.len(),
        forall|i: int| 0 <= i < count ==> left[i] == right[i],
    ensures
        ranked_prefix(left, weight, count) == ranked_prefix(right, weight, count),
    decreases count,
{
    if count > 0 {
        lemma_ranked_index_prefix(left, right, weight, count - 1);
    }
}

impl PdfTimingSummary {
    /// The times are those of the events recorded.
    pub open spec fn wf(&self) -> bool {
        &&& times_bounded(self.stages@, self.events as int)
        &&& pages_bounded(pages_view(self.pages@), self.events as int)
        &&& self.pages@.len() <= self.events
        &&& self.direct_bitonal_pages <= self.events
        &&& self.fallback_rgb_pages <= self.events
    }

    /// No times yet.
    #[must_use]
    pub fn new() -> (summary: Self)
        ensures
            summary.wf(),
            summary.events == 0,
            summary@ == (TimingModel {
                stages: Seq::empty(),
                pages: Seq::empty(),
                direct_bitonal_pages: 0,
                fallback_rgb_pages: 0,
            }),
    {
        let summary = PdfTimingSummary {
            events: 0,
            stages: Vec::new(),
            pages: Vec::new(),
            direct_bitonal_pages: 0,
            fallback_rgb_pages: 0,
        };
        assert(pages_view(summary.pages@) =~= Seq::empty());
        summary
    }

    /// The place of a page, listed anew if it was not.
    fn page_index(&mut self, page_number: usize) -> (index: usize)
        requires
            pages_bounded(pages_view(old(self).pages@), old(self).events as int),
        ensures
            index < final(self).pages@.len(),
            pages_view(final(self).pages@) == with_page(
                pages_view(old(self).pages@),
                page_number,
            ),
            index == page_place(pages_view(final(self).pages@), page_number, 0),
            pages_bounded(pages_view(final(self).pages@), old(self).events as int),
            final(self).pages@.len() <= old(self).pages@.len() + 1,
            final(self).events == old(self).events,
            final(self).stages@ == old(self).stages@,
            final(self).direct_bitonal_pages == old(self).direct_bitonal_pages,
            final(self).fallback_rgb_pages == old(self).fallback_rgb_pages,
    {
        let ghost models = pages_view(self.pages@);
        let mut i: usize = 0;
        while i < self.pages.len()
            invariant
                *self == *old(self),
                models == pages_view(self.pages@),
                i <= self.pages@.len(),
                page_place(models, page_number, 0) == page_place(models, page_number, i as int),
                pages_bounded(models, self.events as int),
            decreases self.pages@.len() - i,
        {
            assert(models[i as int] == self.pages@[i as int]@);
            if self.pages[i].page_number == page_number {
                return i;
            }
            i = i + 1;
        }
        let page = PdfPageTiming { page_number, kind: None, total: 0, stages: Vec::new() };
        assert(page@ =~= untimed_page(page_number));
        assert(0 <= self.events * u64::MAX) by (nonlinear_arith);
        self.pages.push(page);
        proof {
            lemma_page_place_pushed(models, page_number, 0);
            assert(pages_view(self.pages@) =~= models.push(untimed_page(page_number)));
            assert forall|k: int| 0 <= k < pages_view(self.pages@).len() implies page_bounded(
                #[trigger] pages_view(self.pages@)[k],
                old(self).events as int,
            ) by {
                if k < models.len() {
                    assert(pages_view(self.pages@)[k] == models[k]);
                }
            }
        }
        i
    }

    /// Adds the time of an event.
    pub fn record(&mut self, event: DjvuPdfTimingEvent)
        requires
            old(self).wf(),
            old(self).events < u64::MAX,
        ensures
            final(self).wf(),
            final(self).events == old(self).events + 1,
            final(self)@ == recorded(old(self)@, event),
    {
        let ghost events = self.events as int;
        let ghost before = pages_view(self.pages@);
        assert(events * u64::MAX + u64::MAX == (events + 1) * u64::MAX) by (nonlinear_arith);
        assert(0 <= events * u64::MAX <= (u64::MAX - 1) * u64::MAX) by (nonlinear_arith)
            requires
                0 <= events < u64::MAX,
        ;
        add_time(&mut self.stages, event.stage, event.nanoseconds, Ghost(events));
        match event.page_number {
            None => {},
            Some(page_number) => {
                let index = self.page_index(page_number);
                let ghost listed = pages_view(self.pages@);
                let ghost given = self.pages@;
                assert(listed[index as int] == self.pages@[index as int]@);
                assert(page_bounded(listed[index as int], events));
                let mut page = self.pages.remove(index);
                page.total = page.total + event.nanoseconds as u128;
                add_time(&mut page.stages, event.stage, event.nanoseconds, Ghost(events));
                match event.page_kind {
                    None => {},
                    Some(kind) => {
                        if page.kind.is_none() {
                            match kind {
                                DjvuPdfPageKind::DirectBitonal => {
                                    self.direct_bitonal_pages = self.direct_bitonal_pages + 1;
                                },
                                DjvuPdfPageKind::FallbackRgb => {
                                    self.fallback_rgb_pages = self.fallback_rgb_pages + 1;
                                },
                            }
                        }
                        page.kind = Some(kind);
                    },
                }
                assert(page@ =~= page_with(listed[index as int], event));
                self.pages.insert(index, page);
                assert(self.pages@ =~= given.update(index as int, page));
                assert(pages_view(self.pages@) =~= listed.update(
                    index as int,
                    page_with(listed[index as int], event),
                ));
                assert(page_bounded(page@, events + 1));
            },
        }
        self.events = self.events + 1;
        proof {
            let after = pages_view(self.pages@);
            assert forall|k: int| 0 <= k < after.len() implies page_bounded(
                #[trigger] after[k],
                events + 1,
            ) by {
                if event.page_number is None {
                    assert(after[k] == before[k]);
                    assert(page_bounded(before[k], events));
                } else {
                    let listed = with_page(before, event.page_number->0);
                    let place = page_place(listed, event.page_number->0, 0);
                    if k != place {
                        assert(after[k] == listed[k]);
                        assert(page_bounded(listed[k], events));
                    }
                }
            }
        }
    }

    /// The time that a stage took.
    #[must_use]
    pub fn stage(&self, stage: DjvuPdfTimingStage) -> (time: u128)
        ensures
            time == stage_time(self@.stages, stage),
    {
        time_of(&self.stages, stage)
    }

    /// The places of the ten pages that took longest, longest first.
    #[must_use]
    pub fn slowest_pages(&self) -> (slowest: Vec<usize>)
        ensures
            slowest@ == ranked(indices(self@.pages.len()), page_weight(self@.pages)).take(
                at_most(10, self@.pages.len() as int),
            ),
    {
        let ghost models = pages_view(self.pages@);
        let ghost weight = page_weight(models);
        let mut order: Vec<usize> = Vec::new();
        let mut next: usize = 0;
        assert(order@ =~= ranked(indices(0), weight));
        assert(self.pages@.len() == self.pages.len());
        while next < self.pages.len()
            invariant
                next <= self.pages@.len(),
                self.pages@.len() <= usize::MAX,
                models == pages_view(self.pages@),
                weight == page_weight(models),
                order@ == ranked(indices(next as nat), weight),
                order@.len() == next,
                forall|k: int| 0 <= k < order@.len() ==> (#[trigger] order@[k]) < next,
            decreases self.pages@.len() - next,
        {
            let own = self.pages[next].stage(DjvuPdfTimingStage::PageTotal);
            assert(models[next as int] == self.pages@[next as int]@);
            assert(own == weight(next));
            let mut place: usize = order.len();
            while place > 0 && self.pages[order[place - 1]].stage(DjvuPdfTimingStage::PageTotal)
                < own
                invariant
                    place <= order@.len(),
                    next < self.pages@.len(),
                    models == pages_view(self.pages@),
                    weight == page_weight(models),
                    own == weight(next),
                    forall|k: int| 0 <= k < order@.len() ==> (#[trigger] order@[k]) < next,
                    rank_place(order@, weight, weight(next), order@.len() as int) == rank_place(
                        order@,
                        weight,
                        weight(next),
                        place as int,
                    ),
                decreases place,
            {
                assert(models[order@[place - 1] as int] == self.pages@[order@[place
                    - 1] as int]@);
                assert(weight(order@[place - 1]) < weight(next));
                place = place - 1;
            }
            proof {
                if place > 0 {
                    assert(models[order@[place - 1] as int] == self.pages@[order@[place
                        - 1] as int]@);
                    assert(weight(order@[place - 1]) >= weight(next));
                }
                lemma_ranked_index_push(next as nat, weight);
            }
            let ghost earlier = order@;
            order.insert(place, next);
            assert forall|k: int| 0 <= k < order@.len() implies (#[trigger] order@[k]) < next
                + 1 by {
                if k < place {
                    assert(order@[k] == earlier[k]);
                } else if k > place {
                    assert(order@[k] == earlier[k - 1]);
                }
            }
            next = next + 1;
        }
        let ghost all = order@;
        if 10 < order.len() {
            order.truncate(10);
        }
        assert(order@ =~= all.take(at_most(10, all.len() as int)));
        order
    }
}

/// The name of a kind of page.
pub open spec fn page_kind_name(kind: DjvuPdfPageKind) -> Seq<char> {
    match kind {
        DjvuPdfPageKind::DirectBitonal => "direct bitonal"@,
        DjvuPdfPageKind::FallbackRgb => "fallback RGB"@,
    }
}

/// The name of a kind of page.
#[must_use]
pub fn format_pdf_page_kind(kind: DjvuPdfPageKind) -> (name: &'static str)
    ensures
        name@ == page_kind_name(kind),
{
    match kind {
        DjvuPdfPageKind::DirectBitonal => "direct bitonal",
        DjvuPdfPageKind::FallbackRgb => "fallback RGB",
    }
}

/// The name of a stage.
pub open spec fn stage_name(stage: DjvuPdfTimingStage) -> Seq<char> {
    match stage {
        DjvuPdfTimingStage::Setup => "setup"@,
        DjvuPdfTimingStage::TextExtraction => "text extraction"@,
        DjvuPdfTimingStage::PagePlan => "page planning"@,
        DjvuPdfTimingStage::DirectBitonal => "direct bitonal"@,
        DjvuPdfTimingStage::FallbackRender => "fallback render"@,
        DjvuPdfTimingStage::Jb2Decode => "JB2 decode"@,
        DjvuPdfTimingStage::Iw44Decode => "IW44 decode"@,
        DjvuPdfTimingStage::Iw44Composite => "IW44 composite"@,
        DjvuPdfTimingStage::MaskComposite => "mask composite"@,
        DjvuPdfTimingStage::ImageBytes => "image bytes"@,
        DjvuPdfTimingStage::CcittEncode => "CCITT encode"@,
        DjvuPdfTimingStage::PdfObjectWrite => "PDF object write"@,
        DjvuPdfTimingStage::PdfWrite => "pdf write/encode"@,
        DjvuPdfTimingStage::PageTotal => "page total"@,
    }
}

/// The name of a stage.
#[must_use]
pub fn format_pdf_timing_stage(stage: DjvuPdfTimingStage) -> (name: &'static str)
    ensures
        name@ == stage_name(stage),
{
    match stage {
        DjvuPdfTimingStage::Setup => "setup",
        DjvuPdfTimingStage::TextExtraction => "text extraction",
        DjvuPdfTimingStage::PagePlan => "page planning",
        DjvuPdfTimingStage::DirectBitonal => "direct bitonal",
        DjvuPdfTimingStage::FallbackRender => "fallback render",
        DjvuPdfTimingStage::Jb2Decode => "JB2 decode",
        DjvuPdfTimingStage::Iw44Decode => "IW44 decode",
        DjvuPdfTimingStage::Iw44Composite => "IW44 composite",
        DjvuPdfTimingStage::MaskComposite => "mask composite",
        DjvuPdfTimingStage::ImageBytes => "image bytes",
        DjvuPdfTimingStage::CcittEncode => "CCITT encode",
        DjvuPdfTimingStage::PdfObjectWrite => "PDF object write",
        DjvuPdfTimingStage::PdfWrite => "pdf write/encode",
        DjvuPdfTimingStage::PageTotal => "page total",
    }
}

} // verus!
