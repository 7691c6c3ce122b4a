//! The objects of a PDF file, and the table of where they are.

use crate::pdf::{PdfError, PdfResult};
use crate::text::{
    decimal, decimal_bytes, push_bytes, push_decimal, push_decimal_bytes, push_text, text_of,
    utf8,
};
use vstd::prelude::*;

verus! {

/// A PDF file that is being written: its bytes, and where each object starts.
#[verifier::ext_equal]
pub struct PdfModel {
    pub bytes: Seq<u8>,
    pub offsets: Seq<nat>,
}

/// The first lines of a file.
pub open spec fn file_header() -> Seq<u8> {
    utf8("%PDF-1.4\n%"@) + seq![255u8, 255u8, 255u8, 255u8, 10u8]
}

/// A file without objects, with room for those up to the given number.
pub open spec fn empty_file(max_object: nat) -> PdfModel {
    PdfModel { bytes: file_header(), offsets: Seq::new(max_object + 1, |i: int| 0nat) }
}

/// An object with its number.
pub open spec fn object_bytes(id: int, object: Seq<u8>) -> Seq<u8> {
    decimal_bytes(id as nat) + utf8(" 0 obj\n"@) + object + utf8("\nendobj\n"@)
}

/// A file with one more object.
pub open spec fn with_object(pdf: PdfModel, id: int, object: Seq<u8>) -> PdfModel {
    PdfModel {
        bytes: pdf.bytes + object_bytes(id, object),
        offsets: pdf.offsets.update(id, pdf.bytes.len()),
    }
}

/// So many zero digits.
pub open spec fn zero_digits(count: nat) -> Seq<u8> {
    Seq::new(count, |i: int| 48u8)
}

/// A number of at least ten digits.
pub open spec fn ten_digits(n: nat) -> Seq<u8> {
    let digits = decimal_bytes(n);
    if digits.len() < 10 {
        zero_digits((10 - digits.len()) as nat) + digits
    } else {
        digits
    }
}

/// The table lines of the objects from number one up to the given number.
pub open spec fn offset_lines(offsets: Seq<nat>, count: int) -> Seq<u8>
    decreases count,
{
    if count <= 1 {
        Seq::empty()
    } else {
        offset_lines(offsets, count - 1) + ten_digits(offsets[count - 1]) + utf8(" 00000 n \n"@)
    }
}

/// The table of the objects and the trailer.
pub open spec fn file_end(pdf: PdfModel, root: int) -> Seq<u8> {
    utf8("xref\n0 "@) + decimal_bytes(pdf.offsets.len()) + utf8("\n"@) + utf8(
        "0000000000 65535 f \n"@,
    ) + offset_lines(pdf.offsets, pdf.offsets.len() as int) + utf8("trailer\n<< /Size "@)
        + decimal_bytes(pdf.offsets.len()) + utf8(" /Root "@) + decimal_bytes(root as nat) + utf8(
        " 0 R >>\nstartxref\n"@,
    ) + decimal_bytes(pdf.bytes.len()) + utf8("\n%%EOF\n"@)
}

/// A whole file.
pub open spec fn finished(pdf: PdfModel, root: int) -> Seq<u8> {
    pdf.bytes + file_end(pdf, root)
}

/// Whether an object stands where the table says.
pub open spec fn object_found(pdf: PdfModel, id: int) -> bool {
    let start = decimal_bytes(id as nat) + utf8(" 0 obj\n"@);
    let at = pdf.offsets[id] as int;
    &&& at + start.len() <= pdf.bytes.len()
    &&& pdf.bytes.subrange(at, at + start.len()) == start
}

/// Every object that was written stands where the table says.
pub open spec fn consistent(pdf: PdfModel) -> bool {
    forall|id: int|
        0 <= id < pdf.offsets.len() && #[trigger] pdf.offsets[id] != 0 ==> object_found(pdf, id)
}

/// A file without objects has none in the wrong place.
pub proof fn lemma_empty_file_consistent(max_object: nat)
    ensures
        consistent(empty_file(max_object)),
        empty_file(max_object).bytes.len() > 0,
{
}

/// An object that is added stands where the table says, and those before it still do.
pub proof fn lemma_with_object_consistent(pdf: PdfModel, id: int, object: Seq<u8>)
    requires
        consistent(pdf),
        pdf.bytes.len() > 0,
        0 <= id < pdf.offsets.len(),
    ensures
        consistent(with_object(pdf, id, object)),
        with_object(pdf, id, object).bytes.len() > 0,
        with_object(pdf, id, object).offsets.len() == pdf.offsets.len(),
        with_object(pdf, id, object).offsets[id] != 0,
        forall|other: int|
            0 <= other < pdf.offsets.len() && #[trigger] pdf.offsets[other] != 0 ==> with_object(
                pdf,
                id,
                object,
            ).offsets[other] != 0,
{
    let longer = with_object(pdf, id, object);
    assert forall|other: int|
        0 <= other < longer.offsets.len() && #[trigger] longer.offsets[other] != 0 implies object_found(
        longer,
        other,
    ) by {
        let start = decimal_bytes(other as nat) + utf8(" 0 obj\n"@);
        let at = longer.offsets[other] as int;
        if other == id {
            assert(longer.bytes.subrange(at, at + start.len()) =~= start);
        } else {
            assert(pdf.offsets[other] != 0);
            assert(object_found(pdf, other));
            assert(longer.bytes.subrange(at, at + start.len()) =~= pdf.bytes.subrange(
                at,
                at + start.len(),
            ));
        }
    }
}

/// Objects that are in a file stay in it, and the table keeps its size.
pub open spec fn extends(pdf: PdfModel, longer: PdfModel) -> bool {
    &&& longer.offsets.len() == pdf.offsets.len()
    &&& consistent(pdf) && pdf.bytes.len() > 0 ==> {
        &&& consistent(longer)
        &&& longer.bytes.len() > 0
        &&& forall|id: int|
            0 <= id < pdf.offsets.len() && pdf.offsets[id] != 0 ==> #[trigger] longer.offsets[id]
                != 0
    }
}

/// One more object extends a file.
pub proof fn lemma_object_extends(pdf: PdfModel, id: int, object: Seq<u8>)
    requires
        0 <= id < pdf.offsets.len(),
    ensures
        extends(pdf, with_object(pdf, id, object)),
        pdf.bytes.len() > 0 ==> with_object(pdf, id, object).offsets[id] != 0,
{
    if consistent(pdf) && pdf.bytes.len() > 0 {
        lemma_with_object_consistent(pdf, id, object);
    }
}

/// Writes the objects of a file.
pub struct PdfObjectWriter {
    bytes: Vec<u8>,
    offsets: Vec<usize>,
}

impl View for PdfObjectWriter {
    type V = PdfModel;

    closed spec fn view(&self) -> PdfModel {
        PdfModel {
            bytes: self.bytes@,
            offsets: Seq::new(self.offsets@.len(), |i: int| self.offsets@[i] as nat),
        }
    }
}

/// Appends a number of at least ten digits.
fn push_ten_digits(bytes: &mut Vec<u8>, n: u64)
    ensures
        final(bytes)@ == old(bytes)@ + ten_digits(n as nat),
{
    let mut digits: Vec<u8> = Vec::new();
    push_decimal_bytes(&mut digits, n);
    assert(digits@ =~= decimal_bytes(n as nat));
    let mut len: usize = digits.len();
    while len < 10
        invariant
            digits@.len() <= len,
            len <= 10 || len == digits@.len(),
            bytes@ == old(bytes)@ + zero_digits((len - digits@.len()) as nat),
        decreases 10 - len,
    {
        bytes.push(48);
        len = len + 1;
        assert(bytes@ =~= old(bytes)@ + zero_digits((len - digits@.len()) as nat));
    }
    push_bytes(bytes, digits.as_slice());
    assert(bytes@ =~= old(bytes)@ + ten_digits(n as nat));
}

impl PdfObjectWriter {
    /// Starts a file with room for the objects up to the given number.
    pub fn new(max_object_id: usize) -> (pdf: Self)
        requires
            max_object_id < usize::MAX,
        ensures
            pdf@ == empty_file(max_object_id as nat),
    {
        let mut bytes: Vec<u8> = Vec::new();
        push_text(&mut bytes, "%PDF-1.4\n%");
        bytes.push(255);
        bytes.push(255);
        bytes.push(255);
        bytes.push(255);
        bytes.push(10);
        let mut offsets: Vec<usize> = Vec::new();
        let mut i: usize = 0;
        while i < max_object_id + 1
            invariant
                i <= max_object_id + 1,
                max_object_id < usize::MAX,
                offsets@.len() == i,
                forall|k: int| 0 <= k < i ==> offsets@[k] == 0,
            decreases max_object_id + 1 - i,
        {
            offsets.push(0);
            i = i + 1;
        }
        let pdf = PdfObjectWriter { bytes, offsets };
        assert(pdf@ =~= empty_file(max_object_id as nat));
        pdf
    }

    /// Writes an object.
    pub fn write_object(&mut self, id: usize, object: &[u8]) -> (done: PdfResult<()>)
        ensures
            id < old(self)@.offsets.len() ==> done is Ok && final(self)@ == with_object(
                old(self)@,
                id as int,
                object@,
            ),
            id >= old(self)@.offsets.len() ==> done is Err && done->Err_0@ == "PDF object id "@
                + decimal(id as nat) + " exceeds xref size"@ && final(self)@ == old(self)@,
    {
        if id >= self.offsets.len() {
            let mut message: String = text_of("PDF object id ");
            push_decimal(&mut message, id as u64);
            message.append(" exceeds xref size");
            return Err(PdfError(message));
        }
        let position: usize = self.bytes.len();
        self.offsets.set(id, position);
        push_decimal_bytes(&mut self.bytes, id as u64);
        push_text(&mut self.bytes, " 0 obj\n");
        push_bytes(&mut self.bytes, object);
        push_text(&mut self.bytes, "\nendobj\n");
        assert(self@ =~= with_object(old(self)@, id as int, object@));
        Ok(())
    }

    /// Writes the table of the objects and the trailer.
    pub fn finish(self, root_id: usize) -> (file: Vec<u8>)
        ensures
            file@ == finished(self@, root_id as int),
    {
        let count: usize = self.offsets.len();
        let xref_start: usize = self.bytes.len();
        let ghost model = self@;
        let mut end: Vec<u8> = Vec::new();
        push_text(&mut end, "xref\n0 ");
        push_decimal_bytes(&mut end, count as u64);
        push_text(&mut end, "\n");
        push_text(&mut end, "0000000000 65535 f \n");
        let ghost before = end@;
        assert(before =~= utf8("xref\n0 "@) + decimal_bytes(count as nat) + utf8("\n"@) + utf8(
            "0000000000 65535 f \n"@,
        ));
        let mut next: usize = 1;
        assert(end@ =~= before + offset_lines(model.offsets, 1));
        while next < count
            invariant
                1 <= next,
                next <= count || next == 1,
                count == self.offsets@.len(),
                model == self@,
                end@ == before + offset_lines(model.offsets, next as int),
            decreases count - next,
        {
            push_ten_digits(&mut end, self.offsets[next] as u64);
            push_text(&mut end, " 00000 n \n");
            next = next + 1;
            assert(end@ =~= before + offset_lines(model.offsets, next as int));
        }
        assert(offset_lines(model.offsets, next as int) =~= offset_lines(
            model.offsets,
            count as int,
        ));
        push_text(&mut end, "trailer\n<< /Size ");
        push_decimal_bytes(&mut end, count as u64);
        push_text(&mut end, " /Root ");
        push_decimal_bytes(&mut end, root_id as u64);
        push_text(&mut end, " 0 R >>\nstartxref\n");
        push_decimal_bytes(&mut end, xref_start as u64);
        push_text(&mut end, "\n%%EOF\n");
        let mut file: Vec<u8> = self.bytes;
        push_bytes(&mut file, end.as_slice());
        file
    }
}

} // verus!
