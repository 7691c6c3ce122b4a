//! DjVu parsing, rendering, and PDF conversion.
//!
//! Pages are rendered by [`render_document_page`], [`render_document_pages`] and
//! [`render_document_pages_with_events`], in one of the modes of [`PageRenderMode`], and
//! turned into PDF files by [`render_document_pdf`] and
//! [`render_document_pdf_with_events`].

pub mod bitonal;
pub mod bitstream;
pub mod bzz;
pub mod chunk;
pub mod dirm;
pub mod document;
pub mod error;
pub mod finding;
pub mod framing;
pub mod info;
pub mod inspect;
pub mod iw44;
pub mod jb2;
pub mod navm;
pub mod number;
pub mod page;
pub mod pdf;
pub mod ranking;
pub mod render;
pub mod report;
pub mod text;
pub mod zp;
pub mod zp_tables;

pub use bitonal::BitonalBitmap;
pub use bzz::{decode_bzz, decode_dirm_tail, BzzError, BzzResult};
pub use chunk::{parse_chunk_at, parse_chunks, parse_document_root, parse_form_at, Chunk, Form};
pub use dirm::{parse_dirm, parse_dirm_tail, Dirm, DirmTailEntry};
pub use document::{
    DirectoryEntry, Document, DocumentForm, DocumentFormKind, FormKindCounts, Page,
    PageChunkSource, Pages, ResolvedPageChunk, RootChunkCounts,
};
pub use error::ParseError;
pub use info::{read_page_info, PageInfo};
pub use inspect::{
    inspect_iw44_pixel, InspectError, Iw44PixelInspectOptions, Iw44PixelInspection, Iw44PixelTrace,
};
pub use iw44::decoder::{
    Iw44CoefficientPlane, Iw44DecodedChunk, Iw44Decoder, Iw44PlaneCoefficientSummary,
};
pub use iw44::header::{
    read_iw44_chunk_header, summarize_iw44_layer, Iw44ChunkHeader, Iw44ImageHeader,
    Iw44LayerSummary, Iw44PageMapping,
};
pub use iw44::{
    Iw44Bitstream, Iw44CoefficientEvent, Iw44CoefficientEventKind, Iw44CoefficientTraceTarget,
    Iw44Error, Iw44Plane, Iw44ReconstructionExtent, Iw44ReconstructionOrder,
    Iw44ReconstructionPlane, Iw44RgbImage,
};
pub use jb2::{
    decode_jb2_dictionary, read_jb2_image_header, read_jb2_record_prefix, render_jb2_image,
    render_jb2_image_with_dictionary, render_jb2_supported_prefix, Jb2Dictionary, Jb2Error,
    Jb2ImageHeader, Jb2PartialImage, Jb2RecordKind, Jb2RecordPrefix, Jb2RecordSummary,
};
pub use navm::{extract_document_bookmarks, parse_navm_bookmarks, Bookmark};
pub use page::{read_page_details, PageChunk, PageChunkKind, PageChunkPayload, PageDetails};
pub use pdf::document::{
    render_document_pdf, render_document_pdf_with_events, DjvuPdfError, DjvuPdfRenderEvent,
    DjvuPdfResult, DocumentConversion, PreparedPage,
};
pub use pdf::image::PdfPageImage;
pub use pdf::outline::PdfBookmark;
pub use pdf::text_layer::{ExtractedTextZonePage, TextZone, TextZoneKind};
pub use pdf::timing::{
    DjvuPdfPageKind, DjvuPdfTimingEvent, DjvuPdfTimingStage, PdfTimingSummary,
};
pub use pdf::work::{PageStep, PageWork};
pub use pdf::writer::{
    write_bitmap_pdf, write_page_image_pdf, write_page_image_pdf_iter,
    write_rendered_pages_pdf_iter,
};
pub use pdf::{PdfError, PdfResult};
pub use render::bitmap::{PageBitmap, PageBitmapStats, PixelFormat};
pub use render::document::{
    render_document_page, render_document_pages, render_document_pages_with_events,
    DjvuPageRenderEvent, DjvuRenderError, DjvuRenderResult, RenderedDocumentPage,
};
pub use render::plan::{
    BitonalImageHeader, Iw44LayerGeometry, Iw44LayerRole, PageRenderMode, PageRenderPlan,
    PartialPageRender, RenderChunkPayload, RenderedIw44Layer,
};
pub use render::steps::PageRendering;
pub use render::RenderError;
pub use report::{RenderPdfOptions, RenderPdfProgress};
