//! What a manifest has been given stays.
use vstd::prelude::*;

use crate::manifest::builder::{
    advanced, advanced_with, begun, is_set, lemma_less_work, supplied, with_item, without_next,
    work, BuilderView,
};
use crate::manifest::collections::{entries_before, lemma_entries_before};
use crate::manifest::elements::{
    operation_of, project_of, read_annotation, read_element, Element,
};
use crate::manifest::parser::{
    annotation_warning, document_body, element_item, element_read, element_slot, file_read,
    lemma_manifest_rest, lemma_notice_rest, lemma_project_read_rest, manifest_body,
    manifest_element, notice_body, project_body, project_read, warnings_of, ItemView, Slot,
};
use crate::manifest::{project_path, FileOperationView, ManifestView};
use crate::text::text_bytes;
use crate::xml::{EventView, StepView, TagView};

verus! {

/// All that a manifest had been given is still there: what can be given only once is the same, and
/// no remote and no project is gone.
pub open spec fn keeps(before: ManifestView, after: ManifestView) -> bool {
    &&& before.default is Some ==> after.default == before.default
    &&& before.manifest_server is Some ==> after.manifest_server == before.manifest_server
    &&& before.superproject is Some ==> after.superproject == before.superproject
    &&& before.contactinfo is Some ==> after.contactinfo == before.contactinfo
    &&& before.repo_hooks is Some ==> after.repo_hooks == before.repo_hooks
    &&& forall|i: int|
        0 <= i < before.remotes.len() ==> after.remotes.contains(#[trigger] before.remotes[i])
    &&& forall|i: int|
        0 <= i < before.projects.len() ==> after.projects.contains(#[trigger] before.projects[i])
}

/// What an item gives a manifest that can be given only once.
pub open spec fn gives(item: ItemView) -> Option<Slot> {
    match item {
        ItemView::Default(_) => Some(Slot::Default),
        ItemView::ManifestServer(_) => Some(Slot::ManifestServer),
        ItemView::SuperProject(_) => Some(Slot::SuperProject),
        ItemView::ContactInfo(_) => Some(Slot::ContactInfo),
        ItemView::RepoHooks(_) => Some(Slot::RepoHooks),
        _ => None,
    }
}

/// What is claimed after an item and not given yet.
pub open spec fn claim_after(item: ItemView, claim: Option<Slot>) -> Option<Slot> {
    match item {
        ItemView::Claim(slot) => Some(slot),
        ItemView::Warning(_) => claim,
        _ => None,
    }
}

/// Everything that can be given only once has been claimed right before it is given.
pub open spec fn claimed(items: Seq<ItemView>, claim: Option<Slot>) -> bool
    decreases items.len(),
{
    items.len() > 0 ==> {
        &&& gives(items[0]) is Some ==> claim == gives(items[0])
        &&& claimed(items.drop_first(), claim_after(items[0], claim))
    }
}

/// What is claimed after some items and not given yet.
pub open spec fn claim_after_all(items: Seq<ItemView>, claim: Option<Slot>) -> Option<Slot>
    decreases items.len(),
{
    if items.len() == 0 {
        claim
    } else {
        claim_after_all(items.drop_first(), claim_after(items[0], claim))
    }
}

/// What the files of a builder have yet to give is claimed before it is given, where the innermost
/// may have claimed something that the manifest does not have.
pub open spec fn claims_first(builder: BuilderView, claim: Option<Slot>) -> bool {
    &&& claim is Some ==> !is_set(builder.manifest, claim->0)
    &&& forall|i: int|
        0 <= i < builder.pending.len() ==> claimed(
            (#[trigger] builder.pending[i]).items,
            if i == builder.pending.len() - 1 {
                claim
            } else {
                None
            },
        )
}

proof fn lemma_keeps_in_turn(a: ManifestView, b: ManifestView, c: ManifestView)
    requires
        keeps(a, b),
        keeps(b, c),
    ensures
        keeps(a, c),
{
    assert forall|i: int| 0 <= i < a.remotes.len() implies c.remotes.contains(
        #[trigger] a.remotes[i],
    ) by {
        let k = choose|k: int| 0 <= k < b.remotes.len() && b.remotes[k] == a.remotes[i];
        assert(c.remotes.contains(b.remotes[k]));
    }
    assert forall|i: int| 0 <= i < a.projects.len() implies c.projects.contains(
        #[trigger] a.projects[i],
    ) by {
        let k = choose|k: int| 0 <= k < b.projects.len() && b.projects[k] == a.projects[i];
        assert(c.projects.contains(b.projects[k]));
    }
}

/// An item that was claimed before it is given takes nothing away.
proof fn lemma_item_keeps(manifest: ManifestView, item: ItemView)
    requires
        gives(item) is Some ==> !is_set(manifest, gives(item)->0),
    ensures
        with_item(manifest, item) matches Ok(after) ==> keeps(manifest, after),
{
    match with_item(manifest, item) {
        Ok(after) => {
            match item {
                ItemView::Project(project) => {
                    let path = project_path(project);
                    lemma_entries_before(manifest.projects, path);
                    let n = entries_before(manifest.projects, path) as int;
                    assert forall|i: int| 0 <= i < manifest.projects.len() implies
                        after.projects.contains(#[trigger] manifest.projects[i]) by {
                        if i < n {
                            assert(after.projects[i] == manifest.projects[i]);
                        } else {
                            assert(after.projects[i + 1] == manifest.projects[i]);
                        }
                    }
                },
                _ => {
                    assert forall|i: int| 0 <= i < manifest.projects.len() implies
                        after.projects.contains(#[trigger] manifest.projects[i]) by {
                        assert(after.projects[i] == manifest.projects[i]);
                    }
                },
            }
            assert forall|i: int| 0 <= i < manifest.remotes.len() implies after.remotes.contains(
                #[trigger] manifest.remotes[i],
            ) by {
                assert(after.remotes[i] == manifest.remotes[i]);
            }
        },
        Err(_) => {},
    }
}

/// Going on keeps all that has been given, whether the manifest is refused or not.
pub proof fn law_going_on_keeps(builder: BuilderView, claim: Option<Slot>)
    requires
        claims_first(builder, claim),
    ensures
        keeps(builder.manifest, advanced(builder).0.manifest),
        advanced(builder).1 is NeedFile ==> claims_first(advanced(builder).0, None),
    decreases work(builder.pending),
{
    let pending = builder.pending;
    let manifest = builder.manifest;
    assert forall|i: int| 0 <= i < manifest.remotes.len() implies manifest.remotes.contains(
        #[trigger] manifest.remotes[i],
    ) by {}
    assert forall|i: int| 0 <= i < manifest.projects.len() implies manifest.projects.contains(
        #[trigger] manifest.projects[i],
    ) by {}
    if pending.len() > 0 {
        lemma_less_work(pending);
        let file = pending.last();
        assert(file == pending[pending.len() - 1]);
        if file.items.len() == 0 {
            let left = BuilderView { pending: pending.drop_last(), ..builder };
            assert forall|i: int| 0 <= i < left.pending.len() implies claimed(
                (#[trigger] left.pending[i]).items,
                None,
            ) by {
                assert(left.pending[i] == pending[i]);
            }
            law_going_on_keeps(left, None);
        } else {
            let item = file.items[0];
            let next = claim_after(item, claim);
            let left = BuilderView { pending: without_next(pending), ..builder };
            assert forall|i: int| 0 <= i < left.pending.len() implies claimed(
                (#[trigger] left.pending[i]).items,
                if i == left.pending.len() - 1 {
                    next
                } else {
                    None
                },
            ) by {
                if i < pending.len() - 1 {
                    assert(left.pending[i] == pending[i]);
                }
            }
            match item {
                ItemView::Include(_) => {},
                ItemView::Warning(warning) => {
                    law_going_on_keeps(
                        BuilderView { warnings: builder.warnings.push(warning), ..left },
                        next,
                    );
                },
                _ => {
                    lemma_item_keeps(manifest, item);
                    match with_item(manifest, item) {
                        Ok(after) => {
                            let now = BuilderView { manifest: after, ..left };
                            law_going_on_keeps(now, next);
                            lemma_keeps_in_turn(manifest, after, advanced(now).0.manifest);
                        },
                        Err(_) => {},
                    }
                },
            }
        }
    }
}

proof fn lemma_claimed_both(items: Seq<ItemView>, more: Seq<ItemView>, claim: Option<Slot>)
    ensures
        claimed(items + more, claim) == (claimed(items, claim) && claimed(
            more,
            claim_after_all(items, claim),
        )),
        claim_after_all(items + more, claim) == claim_after_all(
            more,
            claim_after_all(items, claim),
        ),
    decreases items.len(),
{
    if items.len() == 0 {
        assert(items + more =~= more);
    } else {
        assert((items + more).drop_first() =~= items.drop_first() + more);
        assert((items + more)[0] == items[0]);
        lemma_claimed_both(items.drop_first(), more, claim_after(items[0], claim));
    }
}

/// An item that gives nothing that can be given only once can follow anything.
proof fn lemma_claimed_push(items: Seq<ItemView>, item: ItemView, claim: Option<Slot>)
    requires
        claimed(items, claim),
        gives(item) is Some ==> claim_after_all(items, claim) == gives(item),
    ensures
        claimed(items.push(item), claim),
        claim_after_all(items.push(item), claim) == claim_after(
            item,
            claim_after_all(items, claim),
        ),
{
    let one = seq![item];
    assert(items.push(item) =~= items + one);
    lemma_claimed_both(items, one, claim);
    assert(one.drop_first() =~= Seq::empty());
    reveal_with_fuel(claimed, 2);
    reveal_with_fuel(claim_after_all, 2);
}

/// Warnings can follow anything, and leave what is claimed.
proof fn lemma_claimed_warnings(
    items: Seq<ItemView>,
    element: Element,
    unknown: Seq<Seq<u8>>,
    claim: Option<Slot>,
)
    requires
        claimed(items, claim),
    ensures
        claimed(items + warnings_of(element, unknown), claim),
        claim_after_all(items + warnings_of(element, unknown), claim) == claim_after_all(
            items,
            claim,
        ),
    decreases unknown.len(),
{
    let all = warnings_of(element, unknown);
    if unknown.len() == 0 {
        assert(items + all =~= items);
    } else {
        let front = unknown.drop_last();
        lemma_claimed_warnings(items, element, front, claim);
        assert(items + all =~= (items + warnings_of(element, front)).push(all.last()));
        lemma_claimed_push(items + warnings_of(element, front), all.last(), claim);
    }
}

proof fn lemma_element_claims(element: Element, tag: TagView, items: Seq<ItemView>)
    requires
        claimed(items, None),
        manifest_element(tag.name) == Some(element),
    ensures
        claimed(element_read(element, tag, items).0, None),
{
    let before = match element_slot(element) {
        Some(slot) => items.push(ItemView::Claim(slot)),
        None => items,
    };
    if element_slot(element) is Some {
        lemma_claimed_push(items, ItemView::Claim(element_slot(element)->0), None);
    }
    let fields = read_element(element, tag);
    lemma_claimed_warnings(before, element, fields.unknown, None);
    let warned = before + warnings_of(element, fields.unknown);
    if fields.error is None && !(element == Element::Include && fields.values[0]->0.contains('/')) {
        lemma_claimed_push(warned, element_item(element, fields.values), None);
    }
}

proof fn lemma_project_claims(
    steps: Seq<StepView>,
    items: Seq<ItemView>,
    operations: Seq<FileOperationView>,
)
    requires
        claimed(items, None),
    ensures
        claimed(project_body(steps, items, operations).items, None),
    decreases steps.len(),
{
    if steps.len() > 0 {
        let rest = steps.drop_first();
        match steps[0].event {
            EventView::Empty(tag) => {
                let element = if tag.name == text_bytes("copyfile"@) {
                    Element::CopyFile
                } else {
                    Element::LinkFile
                };
                let fields = read_element(element, tag);
                lemma_claimed_warnings(items, element, fields.unknown, None);
                lemma_project_claims(
                    rest,
                    items + warnings_of(element, fields.unknown),
                    operations.push(operation_of(element, fields.values)),
                );
                match read_annotation(tag.attributes, None, None) {
                    Ok((name, value)) => {
                        let item = ItemView::Warning(annotation_warning(name, value));
                        lemma_claimed_push(items, item, None);
                        lemma_project_claims(rest, items.push(item), operations);
                    },
                    Err(_) => {},
                }
            },
            EventView::Comment => {
                lemma_project_claims(rest, items, operations);
            },
            _ => {},
        }
    }
}

proof fn lemma_manifest_claims(steps: Seq<StepView>, items: Seq<ItemView>)
    requires
        claimed(items, None),
    ensures
        claimed(manifest_body(steps, items).items, None),
    decreases steps.len(),
{
    if steps.len() > 0 {
        let rest = steps.drop_first();
        match steps[0].event {
            EventView::Start(tag) => {
                lemma_notice_rest(rest, None);
                lemma_project_read_rest(tag, rest, items);
                lemma_manifest_claims(notice_body(rest, None).rest, items);
                let fields = read_element(Element::Project, tag);
                let warned = items + warnings_of(Element::Project, fields.unknown);
                lemma_claimed_warnings(items, Element::Project, fields.unknown, None);
                lemma_project_claims(rest, warned, Seq::empty());
                let body = project_body(rest, warned, Seq::empty());
                let item = ItemView::Project(project_of(fields.values, body.operations));
                lemma_claimed_push(body.items, item, None);
                let project = project_read(tag, rest, items);
                lemma_manifest_claims(project.rest, project.items);
            },
            EventView::Empty(tag) => match manifest_element(tag.name) {
                Some(element) => {
                    lemma_element_claims(element, tag, items);
                    lemma_manifest_claims(rest, element_read(element, tag, items).0);
                },
                None => {},
            },
            EventView::Comment => {
                lemma_manifest_claims(rest, items);
            },
            EventView::Text { .. } => {
                lemma_manifest_claims(rest, items);
            },
            _ => {},
        }
    }
}

/// Whatever the document, it claims what can be given only once right before it gives it.
pub proof fn law_document_claims(steps: Seq<StepView>, items: Seq<ItemView>, found: bool)
    requires
        claimed(items, None),
    ensures
        claimed(document_body(steps, items, found).items, None),
    decreases steps.len(),
{
    if steps.len() > 0 {
        let rest = steps.drop_first();
        match steps[0].event {
            EventView::Start(_) => {
                lemma_manifest_rest(rest, items);
                lemma_manifest_claims(rest, items);
                let manifest = manifest_body(rest, items);
                law_document_claims(manifest.rest, manifest.items, true);
            },
            EventView::Declaration => {
                law_document_claims(rest, items, found);
            },
            EventView::Comment => {
                law_document_claims(rest, items, found);
            },
            _ => {},
        }
    }
}

/// A builder with one more document claims first, too.
proof fn lemma_supplied_claims(builder: BuilderView, document: Seq<u8>)
    requires
        claims_first(builder, None),
    ensures
        claims_first(supplied(builder, document), None),
{
    let next = supplied(builder, document);
    law_document_claims(crate::xml::decoded_steps(document), Seq::empty(), false);
    assert forall|i: int| 0 <= i < next.pending.len() implies claimed(
        (#[trigger] next.pending[i]).items,
        None,
    ) by {
        if i < builder.pending.len() {
            assert(next.pending[i] == builder.pending[i]);
        }
    }
}

proof fn lemma_files_keep(builder: BuilderView, included: Seq<Seq<u8>>)
    requires
        claims_first(builder, None),
    ensures
        keeps(builder.manifest, advanced_with(builder, included).0.manifest),
    decreases included.len(),
{
    law_going_on_keeps(builder, None);
    let now = advanced(builder);
    if now.1 is NeedFile && included.len() > 0 {
        let next = supplied(now.0, included[0]);
        let more = included.drop_first();
        lemma_supplied_claims(now.0, included[0]);
        lemma_files_keep(next, more);
        lemma_keeps_in_turn(
            builder.manifest,
            now.0.manifest,
            advanced_with(next, more).0.manifest,
        );
    }
}

proof fn lemma_more_files_keep(builder: BuilderView, included: Seq<Seq<u8>>, n: int)
    requires
        claims_first(builder, None),
        0 <= n <= included.len(),
    ensures
        keeps(
            advanced_with(builder, included.take(n)).0.manifest,
            advanced_with(builder, included).0.manifest,
        ),
    decreases included.len(),
{
    law_going_on_keeps(builder, None);
    let now = advanced(builder);
    let first = included.take(n);
    if now.1 is NeedFile && included.len() > 0 {
        let next = supplied(now.0, included[0]);
        let more = included.drop_first();
        lemma_supplied_claims(now.0, included[0]);
        if n == 0 {
            lemma_files_keep(next, more);
        } else {
            assert(first[0] == included[0]);
            assert(first.drop_first() =~= more.take(n - 1));
            lemma_more_files_keep(next, more, n - 1);
        }
    } else {
        let manifest = now.0.manifest;
        assert forall|i: int| 0 <= i < manifest.remotes.len() implies manifest.remotes.contains(
            #[trigger] manifest.remotes[i],
        ) by {}
    }
}

/// What a manifest has been given once is never replaced or removed, whether it is refused in the
/// end or not: what it holds once some of the included files have been read is still there once
/// more of them have been.
pub proof fn law_given_stays(document: Seq<u8>, included: Seq<Seq<u8>>, n: int)
    requires
        0 <= n <= included.len(),
    ensures
        keeps(
            advanced_with(begun(document), included.take(n)).0.manifest,
            advanced_with(begun(document), included).0.manifest,
        ),
{
    let builder = begun(document);
    law_document_claims(crate::xml::decoded_steps(document), Seq::empty(), false);
    assert(builder.pending[0].items == file_read(document).items);
    assert(claims_first(builder, None));
    lemma_more_files_keep(builder, included, n);
}

} // verus!
