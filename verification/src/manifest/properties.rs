//! What holds of every manifest document.
use vstd::prelude::*;

use crate::manifest::builder::{
    advanced, advanced_with, begun, lemma_less_work, supplied, with_item, without_next, work,
    BuilderView, ProgressView,
};
use crate::manifest::elements::{operation_of, read_annotation, read_element, Element};
use crate::manifest::parser::{
    annotation_warning, document_body, element_item, element_read, element_slot,
    lemma_manifest_rest, lemma_notice_rest, lemma_project_read_rest, manifest_body,
    manifest_element, notice_body, project_body, project_read, warnings_of, FileView, ItemView,
};
use crate::manifest::FileOperationView;
use crate::text::text_bytes;
use crate::xml::{EventView, StepView, TagView};

verus! {

/// Every included file is named without a directory.
pub open spec fn includes_local(items: Seq<ItemView>) -> bool {
    forall|i: int|
        0 <= i < items.len() ==> (#[trigger] items[i] matches ItemView::Include(name)
            ==> !name.contains('/'))
}

proof fn lemma_warnings_local(items: Seq<ItemView>, element: Element, unknown: Seq<Seq<u8>>)
    requires
        includes_local(items),
    ensures
        includes_local(items + warnings_of(element, unknown)),
{
    let all = items + warnings_of(element, unknown);
    assert forall|i: int| 0 <= i < all.len() implies (#[trigger] all[i] matches ItemView::Include(
        name,
    ) ==> !name.contains('/')) by {
        if i < items.len() {
            assert(all[i] == items[i]);
        } else {
            assert(all[i] == warnings_of(element, unknown)[i - items.len()]);
        }
    }
}

proof fn lemma_item_local(items: Seq<ItemView>, item: ItemView)
    requires
        includes_local(items),
        item matches ItemView::Include(name) ==> !name.contains('/'),
    ensures
        includes_local(items.push(item)),
{
    let all = items.push(item);
    assert forall|i: int| 0 <= i < all.len() implies (#[trigger] all[i] matches ItemView::Include(
        name,
    ) ==> !name.contains('/')) by {
        if i < items.len() {
            assert(all[i] == items[i]);
        }
    }
}

proof fn lemma_element_local(element: Element, tag: TagView, items: Seq<ItemView>)
    requires
        includes_local(items),
    ensures
        includes_local(element_read(element, tag, items).0),
{
    let claimed = match element_slot(element) {
        Some(slot) => items.push(ItemView::Claim(slot)),
        None => items,
    };
    if element_slot(element) is Some {
        lemma_item_local(items, ItemView::Claim(element_slot(element)->0));
    }
    let fields = read_element(element, tag);
    lemma_warnings_local(claimed, element, fields.unknown);
    let warned = claimed + warnings_of(element, fields.unknown);
    if fields.error is None && !(element == Element::Include && fields.values[0]->0.contains('/')) {
        lemma_item_local(warned, element_item(element, fields.values));
    }
}

proof fn lemma_project_local(
    steps: Seq<StepView>,
    items: Seq<ItemView>,
    operations: Seq<FileOperationView>,
)
    requires
        includes_local(items),
    ensures
        includes_local(project_body(steps, items, operations).items),
    decreases steps.len(),
{
    if steps.len() > 0 {
        let rest = steps.drop_first();
        match steps[0].event {
            EventView::Empty(tag) => {
                let element = if tag.name == text_bytes("copyfile"@) {
                    Element::CopyFile
                } else {
                    Element::LinkFile
                };
                let fields = read_element(element, tag);
                lemma_warnings_local(items, element, fields.unknown);
                lemma_project_local(
                    rest,
                    items + warnings_of(element, fields.unknown),
                    operations.push(operation_of(element, fields.values)),
                );
                match read_annotation(tag.attributes, None, None) {
                    Ok((name, value)) => {
                        let item = ItemView::Warning(annotation_warning(name, value));
                        lemma_item_local(items, item);
                        lemma_project_local(rest, items.push(item), operations);
                    },
                    Err(_) => {},
                }
            },
            EventView::Comment => {
                lemma_project_local(rest, items, operations);
            },
            _ => {},
        }
    }
}

proof fn lemma_project_read_local(tag: TagView, steps: Seq<StepView>, items: Seq<ItemView>)
    requires
        includes_local(items),
    ensures
        includes_local(project_read(tag, steps, items).items),
{
    let fields = read_element(Element::Project, tag);
    lemma_warnings_local(items, Element::Project, fields.unknown);
    let warned = items + warnings_of(Element::Project, fields.unknown);
    lemma_project_local(steps, warned, Seq::empty());
    let body = project_body(steps, warned, Seq::empty());
    lemma_item_local(
        body.items,
        ItemView::Project(
            crate::manifest::elements::project_of(fields.values, body.operations),
        ),
    );
}

proof fn lemma_manifest_local(steps: Seq<StepView>, items: Seq<ItemView>)
    requires
        includes_local(items),
    ensures
        includes_local(manifest_body(steps, items).items),
    decreases steps.len(),
{
    if steps.len() > 0 {
        let rest = steps.drop_first();
        match steps[0].event {
            EventView::Start(tag) => {
                lemma_notice_rest(rest, None);
                lemma_project_read_rest(tag, rest, items);
                lemma_manifest_local(notice_body(rest, None).rest, items);
                let project = project_read(tag, rest, items);
                lemma_project_read_local(tag, rest, items);
                lemma_manifest_local(project.rest, project.items);
            },
            EventView::Empty(tag) => match manifest_element(tag.name) {
                Some(element) => {
                    lemma_element_local(element, tag, items);
                    lemma_manifest_local(rest, element_read(element, tag, items).0);
                },
                None => {},
            },
            EventView::Comment => {
                lemma_manifest_local(rest, items);
            },
            EventView::Text { .. } => {
                lemma_manifest_local(rest, items);
            },
            _ => {},
        }
    }
}

/// Whatever the document, every file that it includes is named without a directory.
pub proof fn law_includes_local(steps: Seq<StepView>, items: Seq<ItemView>, found: bool)
    requires
        includes_local(items),
    ensures
        includes_local(document_body(steps, items, found).items),
    decreases steps.len(),
{
    if steps.len() > 0 {
        let rest = steps.drop_first();
        match steps[0].event {
            EventView::Start(_) => {
                lemma_manifest_rest(rest, items);
                lemma_manifest_local(rest, items);
                let manifest = manifest_body(rest, items);
                law_includes_local(manifest.rest, manifest.items, true);
            },
            EventView::Declaration => {
                law_includes_local(rest, items, found);
            },
            EventView::Comment => {
                law_includes_local(rest, items, found);
            },
            _ => {},
        }
    }
}

/// All that is pending names included files without a directory.
pub open spec fn pending_local(pending: Seq<FileView>) -> bool {
    forall|i: int| 0 <= i < pending.len() ==> includes_local((#[trigger] pending[i]).items)
}

proof fn lemma_next_local(pending: Seq<FileView>)
    requires
        pending_local(pending),
        pending.len() > 0,
        pending.last().items.len() > 0,
    ensures
        pending_local(without_next(pending)),
        pending.last().items[0] matches ItemView::Include(name) ==> !name.contains('/'),
{
    let after = without_next(pending);
    let items = pending.last().items;
    assert(includes_local(pending[pending.len() - 1].items));
    assert forall|i: int| 0 <= i < after.len() implies includes_local(
        (#[trigger] after[i]).items,
    ) by {
        if i < pending.len() - 1 {
            assert(after[i] == pending[i]);
        } else {
            let left = items.drop_first();
            assert forall|k: int| 0 <= k < left.len() implies (
            #[trigger] left[k] matches ItemView::Include(name) ==> !name.contains('/')) by {
                assert(left[k] == items[k + 1]);
            }
        }
    }
}

proof fn lemma_builder_local(builder: BuilderView)
    requires
        pending_local(builder.pending),
    ensures
        pending_local(advanced(builder).0.pending),
        advanced(builder).1 matches ProgressView::NeedFile(name) ==> !name.contains('/'),
    decreases work(builder.pending),
{
    let pending = builder.pending;
    if pending.len() > 0 {
        lemma_less_work(pending);
        let file = pending.last();
        if file.items.len() == 0 {
            let left = BuilderView { pending: pending.drop_last(), ..builder };
            assert forall|i: int| 0 <= i < left.pending.len() implies includes_local(
                (#[trigger] left.pending[i]).items,
            ) by {
                assert(left.pending[i] == pending[i]);
            }
            lemma_builder_local(left);
        } else {
            lemma_next_local(pending);
            let left = BuilderView { pending: without_next(pending), ..builder };
            match file.items[0] {
                ItemView::Include(_) => {},
                ItemView::Warning(warning) => {
                    lemma_builder_local(
                        BuilderView { warnings: builder.warnings.push(warning), ..left },
                    );
                },
                item => match with_item(builder.manifest, item) {
                    Ok(manifest) => {
                        lemma_builder_local(BuilderView { manifest, ..left });
                    },
                    Err(_) => {},
                },
            }
        }
    }
}

proof fn lemma_supplied_local(builder: BuilderView, included: Seq<Seq<u8>>)
    requires
        pending_local(builder.pending),
    ensures
        advanced_with(builder, included).1 matches ProgressView::NeedFile(name) ==> !name.contains(
            '/',
        ),
    decreases included.len(),
{
    lemma_builder_local(builder);
    let now = advanced(builder);
    if now.1 is NeedFile && included.len() > 0 {
        let next = supplied(now.0, included[0]);
        law_includes_local(
            crate::xml::decoded_steps(included[0]),
            Seq::empty(),
            false,
        );
        assert forall|i: int| 0 <= i < next.pending.len() implies includes_local(
            (#[trigger] next.pending[i]).items,
        ) by {
            if i < now.0.pending.len() {
                assert(next.pending[i] == now.0.pending[i]);
            }
        }
        lemma_supplied_local(next, included.drop_first());
    }
}

/// Whatever a manifest is and includes, the files that it asks for are named without a directory.
pub proof fn law_needed_files_local(document: Seq<u8>, included: Seq<Seq<u8>>)
    ensures
        advanced_with(begun(document), included).1 matches ProgressView::NeedFile(name)
            ==> !name.contains('/'),
{
    law_includes_local(crate::xml::decoded_steps(document), Seq::empty(), false);
    lemma_supplied_local(begun(document), included);
}

/// The steps of a document without its comments.
pub open spec fn without_comments(steps: Seq<StepView>) -> Seq<StepView>
    decreases steps.len(),
{
    if steps.len() == 0 {
        Seq::empty()
    } else if steps[0].event is Comment {
        without_comments(steps.drop_first())
    } else {
        seq![steps[0]] + without_comments(steps.drop_first())
    }
}

proof fn lemma_without_comments(steps: Seq<StepView>)
    requires
        steps.len() > 0,
        !(steps[0].event is Comment),
    ensures
        without_comments(steps).len() > 0,
        without_comments(steps)[0] == steps[0],
        without_comments(steps).drop_first() == without_comments(steps.drop_first()),
{
    assert(without_comments(steps).drop_first() =~= without_comments(steps.drop_first()));
}

proof fn lemma_notice_comments(steps: Seq<StepView>, text: Option<Seq<char>>)
    ensures
        ({
            let with = notice_body(steps, text);
            let without = notice_body(without_comments(steps), text);
            &&& without.text == with.text
            &&& without.error == with.error
            &&& without.rest == without_comments(with.rest)
        }),
    decreases steps.len(),
{
    if steps.len() > 0 {
        let rest = steps.drop_first();
        lemma_notice_comments(rest, text);
        if !(steps[0].event is Comment) {
            lemma_without_comments(steps);
            match steps[0].event {
                EventView::Text { text: found, .. } => match found {
                    Ok(read) => lemma_notice_comments(rest, Some(read)),
                    Err(_) => {},
                },
                _ => {},
            }
        }
    }
}

proof fn lemma_project_comments(
    steps: Seq<StepView>,
    items: Seq<ItemView>,
    operations: Seq<FileOperationView>,
)
    ensures
        ({
            let with = project_body(steps, items, operations);
            let without = project_body(without_comments(steps), items, operations);
            &&& without.items == with.items
            &&& without.operations == with.operations
            &&& without.error == with.error
            &&& without.rest == without_comments(with.rest)
        }),
    decreases steps.len(),
{
    if steps.len() > 0 {
        let rest = steps.drop_first();
        lemma_project_comments(rest, items, operations);
        if !(steps[0].event is Comment) {
            lemma_without_comments(steps);
            match steps[0].event {
                EventView::Empty(tag) => {
                    let element = if tag.name == text_bytes("copyfile"@) {
                        Element::CopyFile
                    } else {
                        Element::LinkFile
                    };
                    let fields = read_element(element, tag);
                    lemma_project_comments(
                        rest,
                        items + warnings_of(element, fields.unknown),
                        operations.push(operation_of(element, fields.values)),
                    );
                    match read_annotation(tag.attributes, None, None) {
                        Ok((name, value)) => {
                            lemma_project_comments(
                                rest,
                                items.push(ItemView::Warning(annotation_warning(name, value))),
                                operations,
                            );
                        },
                        Err(_) => {},
                    }
                },
                _ => {},
            }
        }
    }
}

proof fn lemma_project_read_comments(tag: TagView, steps: Seq<StepView>, items: Seq<ItemView>)
    ensures
        ({
            let with = project_read(tag, steps, items);
            let without = project_read(tag, without_comments(steps), items);
            &&& without.items == with.items
            &&& without.error == with.error
            &&& without.rest == without_comments(with.rest)
        }),
{
    let fields = read_element(Element::Project, tag);
    let warned = items + warnings_of(Element::Project, fields.unknown);
    lemma_project_comments(steps, warned, Seq::empty());
}

proof fn lemma_manifest_comments(steps: Seq<StepView>, items: Seq<ItemView>)
    ensures
        ({
            let with = manifest_body(steps, items);
            let without = manifest_body(without_comments(steps), items);
            &&& without.items == with.items
            &&& without.error == with.error
            &&& without.rest == without_comments(with.rest)
        }),
    decreases steps.len(),
{
    if steps.len() > 0 {
        let rest = steps.drop_first();
        if steps[0].event is Comment {
            lemma_manifest_comments(rest, items);
        } else {
            lemma_without_comments(steps);
            match steps[0].event {
                EventView::Start(tag) => {
                    lemma_notice_rest(rest, None);
                    lemma_notice_comments(rest, None);
                    lemma_manifest_comments(notice_body(rest, None).rest, items);
                    lemma_project_read_rest(tag, rest, items);
                    lemma_project_read_comments(tag, rest, items);
                    let project = project_read(tag, rest, items);
                    lemma_manifest_comments(project.rest, project.items);
                },
                EventView::Empty(tag) => match manifest_element(tag.name) {
                    Some(element) => {
                        lemma_manifest_comments(rest, element_read(element, tag, items).0);
                    },
                    None => {},
                },
                EventView::Text { .. } => {
                    lemma_manifest_comments(rest, items);
                },
                _ => {},
            }
        }
    }
}

/// A document says the same with and without its comments.
pub proof fn law_comments_ignored(steps: Seq<StepView>, items: Seq<ItemView>, found: bool)
    ensures
        document_body(without_comments(steps), items, found) == document_body(steps, items, found),
    decreases steps.len(),
{
    if steps.len() > 0 {
        let rest = steps.drop_first();
        if steps[0].event is Comment {
            law_comments_ignored(rest, items, found);
        } else {
            lemma_without_comments(steps);
            match steps[0].event {
                EventView::Start(_) => {
                    lemma_manifest_rest(rest, items);
                    lemma_manifest_comments(rest, items);
                    let manifest = manifest_body(rest, items);
                    law_comments_ignored(manifest.rest, manifest.items, true);
                },
                EventView::Declaration => {
                    law_comments_ignored(rest, items, found);
                },
                _ => {},
            }
        }
    }
}

} // verus!
