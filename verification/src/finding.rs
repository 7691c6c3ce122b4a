//! Which forms, entries and chunks of a document are found: the first that match, and what
//! the counts of them say.

use vstd::prelude::*;

use crate::chunk::ChunkModel;
use crate::dirm::TailEntryModel;
use crate::document::{
    directory_entry, entry_named, form_index_at, included_form, kind_count, role_count, root_fault,
    root_role, DocumentFormKind, DocumentFormModel, RootRole,
};
use crate::page::{of_kind, PageChunkKind, PageChunkModel};

verus! {

/// A form is found at an offset exactly when one lies there, and it is the first that does.
pub proof fn lemma_first_form_found(forms: Seq<DocumentFormModel>, offset: u32)
    ensures
        match form_index_at(forms, offset) {
            None => forall|i: int| 0 <= i < forms.len() ==> (#[trigger] forms[i]).offset != offset,
            Some(k) => {
                &&& 0 <= k < forms.len()
                &&& forms[k].offset == offset
                &&& forall|i: int| 0 <= i < k ==> (#[trigger] forms[i]).offset != offset
            },
        },
    decreases forms.len(),
{
    if forms.len() > 0 && forms[0].offset != offset {
        let rest = forms.drop_first();
        lemma_first_form_found(rest, offset);
        assert forall|i: int| 1 <= i < forms.len() implies #[trigger] forms[i] == rest[i - 1] by {}
    }
}

/// The first entry with a name is the one that is found under it, and nothing is found under
/// a name that no entry has.
pub proof fn lemma_first_entry_found(entries: Seq<TailEntryModel>, name: Seq<char>, k: int)
    requires
        0 <= k <= entries.len(),
        forall|i: int| 0 <= i < k ==> (#[trigger] entries[i]).name != name,
        k < entries.len() ==> entries[k].name == name,
    ensures
        k < entries.len() ==> entry_named(entries, name) == Some(entries[k]),
        k == entries.len() ==> entry_named(entries, name) is None,
    decreases entries.len(),
{
    if k > 0 {
        let rest = entries.drop_first();
        assert(entries[0].name != name);
        assert forall|i: int| 0 <= i < k - 1 implies (#[trigger] rest[i]).name != name by {
            assert(rest[i] == entries[i + 1]);
        }
        if k < entries.len() {
            assert(rest[k - 1] == entries[k]);
        }
        lemma_first_entry_found(rest, name, k - 1);
    }
}

/// An entry of the directory keeps what was read of it. It leads to a form at its offset,
/// with that form's kind, exactly when there is one.
pub proof fn lemma_entry_leads_to_form(forms: Seq<DocumentFormModel>, entry: TailEntryModel)
    ensures
        directory_entry(forms, entry).entry == entry,
        match directory_entry(forms, entry).form_index {
            None => {
                &&& directory_entry(forms, entry).kind is None
                &&& forall|i: int|
                    0 <= i < forms.len() ==> (#[trigger] forms[i]).offset != entry.offset
            },
            Some(k) => {
                &&& 0 <= k < forms.len()
                &&& forms[k].offset == entry.offset
                &&& directory_entry(forms, entry).kind == Some(forms[k].kind)
            },
        },
{
    lemma_first_form_found(forms, entry.offset);
}

/// A reference brings in the first form at the offset of the first entry with its name. It
/// fails when no entry has its name, or when no form lies there.
pub proof fn lemma_reference_followed(
    forms: Seq<DocumentFormModel>,
    entries: Seq<TailEntryModel>,
    id: Seq<char>,
    k: int,
    j: int,
)
    requires
        0 <= k <= entries.len(),
        forall|i: int| 0 <= i < k ==> (#[trigger] entries[i]).name != id,
        k < entries.len() ==> entries[k].name == id,
        0 <= j <= forms.len(),
        k < entries.len() ==> forall|i: int|
            0 <= i < j ==> (#[trigger] forms[i]).offset != entries[k].offset,
        k < entries.len() && j < forms.len() ==> forms[j].offset == entries[k].offset,
    ensures
        k < entries.len() && j < forms.len() ==> included_form(forms, entries, id) == Ok::<
            DocumentFormModel,
            Seq<char>,
        >(forms[j]),
        k == entries.len() || j == forms.len() ==> included_form(forms, entries, id) is Err,
{
    lemma_first_entry_found(entries, id, k);
    if k < entries.len() {
        lemma_first_form_found(forms, entries[k].offset);
        if let Some(found) = form_index_at(forms, entries[k].offset) {
            if found < j {
                assert(forms[found].offset != entries[k].offset);
            } else if found > j {
                assert(forms[j].offset != entries[k].offset);
            }
        }
    }
}

/// One form more counts once, among those of its kind.
pub proof fn lemma_form_counted(
    forms: Seq<DocumentFormModel>,
    form: DocumentFormModel,
    kind: DocumentFormKind,
)
    ensures
        form.kind == kind ==> kind_count(forms.push(form), kind) == kind_count(forms, kind) + 1,
        form.kind != kind ==> kind_count(forms.push(form), kind) == kind_count(forms, kind),
    decreases forms.len(),
{
    if forms.len() == 0 {
        assert(forms.push(form).drop_first() =~= forms);
    } else {
        assert(forms.push(form).drop_first() =~= forms.drop_first().push(form));
        lemma_form_counted(forms.drop_first(), form, kind);
    }
}

/// When every chunk of the root has a role, each counts once: the counts of the roles add
/// up to the number of chunks.
pub proof fn lemma_roles_add_up(bytes: Seq<u8>, chunks: Seq<ChunkModel>)
    requires
        root_fault(bytes, chunks) is None,
    ensures
        role_count(bytes, chunks, RootRole::Directory) + role_count(
            bytes,
            chunks,
            RootRole::Navigation,
        ) + role_count(bytes, chunks, RootRole::Page) + role_count(bytes, chunks, RootRole::Shared)
            + role_count(bytes, chunks, RootRole::Thumbnails) + role_count(
            bytes,
            chunks,
            RootRole::Other,
        ) == chunks.len(),
    decreases chunks.len(),
{
    if chunks.len() > 0 {
        lemma_roles_add_up(bytes, chunks.drop_first());
    }
}

/// The counts fail exactly when some chunk of the root has no role, and only a chunk that
/// holds a form can be without one.
pub proof fn lemma_root_faults(bytes: Seq<u8>, chunks: Seq<ChunkModel>)
    ensures
        root_fault(bytes, chunks) is Some <==> exists|i: int|
            0 <= i < chunks.len() && root_role(bytes, #[trigger] chunks[i]) is Err,
        forall|i: int|
            0 <= i < chunks.len() && (#[trigger] chunks[i]).id != "FORM"@ ==> root_role(
                bytes,
                chunks[i],
            ) is Ok,
    decreases chunks.len(),
{
    if chunks.len() > 0 {
        let rest = chunks.drop_first();
        lemma_root_faults(bytes, rest);
        if root_role(bytes, chunks[0]) is Ok {
            if exists|i: int| 0 <= i < chunks.len() && root_role(bytes, #[trigger] chunks[i]) is Err {
                let i = choose|i: int|
                    0 <= i < chunks.len() && root_role(bytes, #[trigger] chunks[i]) is Err;
                assert(rest[i - 1] == chunks[i]);
            }
            if root_fault(bytes, rest) is Some {
                let i = choose|i: int|
                    0 <= i < rest.len() && root_role(bytes, #[trigger] rest[i]) is Err;
                assert(rest[i] == chunks[i + 1]);
            }
        }
    }
}

/// The tags of chunks without a form tell their roles.
pub proof fn lemma_roles_by_tag(bytes: Seq<u8>, chunk: ChunkModel)
    requires
        chunk.id != "FORM"@,
    ensures
        chunk.id == "DIRM"@ <==> root_role(bytes, chunk) == Ok::<RootRole, Seq<char>>(
            RootRole::Directory,
        ),
        chunk.id == "NAVM"@ <==> root_role(bytes, chunk) == Ok::<RootRole, Seq<char>>(
            RootRole::Navigation,
        ),
        chunk.id != "DIRM"@ && chunk.id != "NAVM"@ ==> root_role(bytes, chunk) == Ok::<
            RootRole,
            Seq<char>,
        >(RootRole::Other),
{
    reveal_strlit("DIRM");
    reveal_strlit("NAVM");
    assert("DIRM"@[0] != "NAVM"@[0]);
}

/// The chunks of a kind are those and no others: every one that is listed is of the kind and
/// a chunk of the page, every chunk of the kind is listed, and listing them again changes
/// nothing. Those of the first part of a page come before those of the rest.
pub proof fn lemma_chunks_of_kind(
    chunks: Seq<PageChunkModel>,
    more: Seq<PageChunkModel>,
    kind: PageChunkKind,
)
    ensures
        of_kind(chunks + more, kind) == of_kind(chunks, kind) + of_kind(more, kind),
        forall|i: int|
            0 <= i < of_kind(chunks, kind).len() ==> (#[trigger] of_kind(chunks, kind)[i]).kind
                == kind && chunks.contains(of_kind(chunks, kind)[i]),
        forall|i: int|
            0 <= i < chunks.len() && (#[trigger] chunks[i]).kind == kind ==> of_kind(
                chunks,
                kind,
            ).contains(chunks[i]),
        of_kind(of_kind(chunks, kind), kind) == of_kind(chunks, kind),
    decreases chunks.len() + more.len(),
{
    if more.len() > 0 {
        assert((chunks + more).drop_last() =~= chunks + more.drop_last());
        assert((chunks + more).last() == more.last());
        lemma_chunks_of_kind(chunks, more.drop_last(), kind);
        assert(of_kind(chunks + more, kind) =~= of_kind(chunks, kind) + of_kind(more, kind));
    } else {
        assert(chunks + more =~= chunks);
        assert(of_kind(chunks, kind) + of_kind(more, kind) =~= of_kind(chunks, kind));
        if chunks.len() > 0 {
            let before = chunks.drop_last();
            let last = chunks.last();
            let listed = of_kind(before, kind);
            lemma_chunks_of_kind(before, Seq::empty(), kind);
            if last.kind == kind {
                assert(of_kind(chunks, kind) == listed.push(last));
                assert(listed.push(last).drop_last() =~= listed);
                assert(listed.push(last).last() == last);
                assert(listed.push(last)[listed.len() as int] == last);
                assert(chunks[chunks.len() - 1] == last);
            }
            assert forall|i: int| 0 <= i < of_kind(chunks, kind).len() implies (
            #[trigger] of_kind(chunks, kind)[i]).kind == kind && chunks.contains(
                of_kind(chunks, kind)[i],
            ) by {
                if i < listed.len() {
                    assert(of_kind(chunks, kind)[i] == listed[i]);
                    assert(before.contains(listed[i]));
                    let j = choose|j: int| 0 <= j < before.len() && before[j] == listed[i];
                    assert(chunks[j] == before[j]);
                }
            }
            assert forall|i: int|
                0 <= i < chunks.len() && (#[trigger] chunks[i]).kind == kind implies of_kind(
                chunks,
                kind,
            ).contains(chunks[i]) by {
                if i < before.len() {
                    assert(chunks[i] == before[i]);
                    assert(listed.contains(before[i]));
                    let j = choose|j: int| 0 <= j < listed.len() && listed[j] == before[i];
                    assert(of_kind(chunks, kind)[j] == listed[j]);
                }
            }
        }
    }
}

} // verus!
