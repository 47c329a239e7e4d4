//! What reading a document and building a manifest from it comes to, part by part.
use vstd::prelude::*;

use crate::lists::law_find_first;
use crate::manifest::attributes::{
    has, is_named, is_named_among, law_empty_annotation, law_last_annotation_counts,
    law_single_text_is_what_its_tag_says, pair,
};
use crate::manifest::builder::{
    advanced, advanced_with, begun, lemma_less_work, supplied_with, with_item, without_next,
    BuilderView, ProgressView,
};
use crate::manifest::collections::{
    entries_before, entry_at, lemma_entries_before, remote_named,
};
use crate::manifest::elements::{
    default_of, operation_of, project_of, read_annotation, read_element, remote_of, repo_hooks_of,
    superproject_of, Element,
};
use crate::manifest::parser::{
    annotation_warning, document_body, element_item, element_read, element_slot,
    lemma_manifest_rest, lemma_notice_rest, lemma_project_read_rest, manifest_body,
    manifest_element, notice_body, project_body, project_read, warnings_of, Context, FileView,
    ItemView, ParseErrorView, Slot, WarningView,
};
use crate::manifest::readback::lemma_bytes_tell;
use crate::manifest::{
    empty_manifest, project_path, DefaultView, FileOperationView, ManifestView, ProjectView,
    RemoteView, RepoHooksView, SuperProjectView,
};
use crate::path::components;
use crate::text::text_bytes;
use crate::xml::{decoded_steps, EventView, StepView, TagAttributeView, TagView};

verus! {

/// The inside of a project is read the same, whatever was read before it.
pub proof fn law_project_inside_read_on_its_own(
    steps: Seq<StepView>,
    before: Seq<ItemView>,
    items: Seq<ItemView>,
    done: Seq<FileOperationView>,
    operations: Seq<FileOperationView>,
)
    ensures
        ({
            let read = project_body(steps, items, operations);
            let after = project_body(steps, before + items, done + operations);
            &&& after.items == before + read.items
            &&& after.operations == done + read.operations
            &&& after.rest == read.rest
            &&& after.error == read.error
        }),
    decreases steps.len(),
{
    if steps.len() > 0 {
        let rest = steps.drop_first();
        match steps[0].event {
            EventView::Empty(tag) => {
                if tag.name == text_bytes("copyfile"@) || tag.name == text_bytes("linkfile"@) {
                    let element = if tag.name == text_bytes("copyfile"@) {
                        Element::CopyFile
                    } else {
                        Element::LinkFile
                    };
                    let fields = read_element(element, tag);
                    let warnings = warnings_of(element, fields.unknown);
                    assert(before + items + warnings =~= before + (items + warnings));
                    if fields.error is None {
                        let operation = operation_of(element, fields.values);
                        assert((done + operations).push(operation) =~= done + operations.push(
                            operation,
                        ));
                        law_project_inside_read_on_its_own(
                            rest,
                            before,
                            items + warnings,
                            done,
                            operations.push(operation),
                        );
                    }
                } else if tag.name == text_bytes("annotation"@) {
                    if let Ok((name, value)) = read_annotation(tag.attributes, None, None) {
                        let warning = ItemView::Warning(annotation_warning(name, value));
                        assert((before + items).push(warning) =~= before + items.push(warning));
                        law_project_inside_read_on_its_own(
                            rest,
                            before,
                            items.push(warning),
                            done,
                            operations,
                        );
                    }
                }
            },
            EventView::Comment => {
                law_project_inside_read_on_its_own(rest, before, items, done, operations);
            },
            _ => {},
        }
    }
}

/// A project with children is read the same, whatever was read before it.
proof fn lemma_project_read_frame(
    tag: TagView,
    steps: Seq<StepView>,
    before: Seq<ItemView>,
    items: Seq<ItemView>,
)
    ensures
        ({
            let read = project_read(tag, steps, items);
            let after = project_read(tag, steps, before + items);
            &&& after.items == before + read.items
            &&& after.rest == read.rest
            &&& after.error == read.error
        }),
{
    let fields = read_element(Element::Project, tag);
    let warnings = warnings_of(Element::Project, fields.unknown);
    assert(before + items + warnings =~= before + (items + warnings));
    if fields.error is None {
        let none = Seq::<FileOperationView>::empty();
        law_project_inside_read_on_its_own(steps, before, items + warnings, none, none);
        assert(none + none =~= none);
        let body = project_body(steps, items + warnings, none);
        assert(none + body.operations =~= body.operations);
        let item = ItemView::Project(project_of(fields.values, body.operations));
        assert((before + body.items).push(item) =~= before + body.items.push(item));
    }
}

/// The inside of a manifest is read the same, whatever was read before it.
pub proof fn law_manifest_inside_read_on_its_own(
    steps: Seq<StepView>,
    before: Seq<ItemView>,
    items: Seq<ItemView>,
)
    ensures
        ({
            let read = manifest_body(steps, items);
            let after = manifest_body(steps, before + items);
            &&& after.items == before + read.items
            &&& after.rest == read.rest
            &&& after.error == read.error
        }),
    decreases steps.len(),
{
    if steps.len() > 0 {
        let rest = steps.drop_first();
        match steps[0].event {
            EventView::Start(tag) => {
                if tag.name == text_bytes("notice"@) {
                    lemma_notice_rest(rest, None);
                    law_manifest_inside_read_on_its_own(
                        notice_body(rest, None).rest,
                        before,
                        items,
                    );
                } else if tag.name == text_bytes("project"@) {
                    lemma_project_read_rest(tag, rest, items);
                    lemma_project_read_frame(tag, rest, before, items);
                    let project = project_read(tag, rest, items);
                    if project.error is None {
                        law_manifest_inside_read_on_its_own(project.rest, before, project.items);
                    }
                }
            },
            EventView::Empty(tag) => {
                if let Some(element) = manifest_element(tag.name) {
                    lemma_element_read_frame(element, tag, before, items);
                    law_manifest_inside_read_on_its_own(
                        rest,
                        before,
                        element_read(element, tag, items).0,
                    );
                }
            },
            EventView::Comment => {
                law_manifest_inside_read_on_its_own(rest, before, items);
            },
            EventView::Text { .. } => {
                law_manifest_inside_read_on_its_own(rest, before, items);
            },
            _ => {},
        }
    }
}

/// An element is read the same, whatever was read before it.
proof fn lemma_element_read_frame(
    element: Element,
    tag: TagView,
    before: Seq<ItemView>,
    items: Seq<ItemView>,
)
    ensures
        element_read(element, tag, before + items).0 == before + element_read(
            element,
            tag,
            items,
        ).0,
        element_read(element, tag, before + items).1 == element_read(element, tag, items).1,
{
    let fields = read_element(element, tag);
    let warnings = warnings_of(element, fields.unknown);
    let claimed = match element_slot(element) {
        Some(slot) => items.push(ItemView::Claim(slot)),
        None => items,
    };
    let claimed_after = match element_slot(element) {
        Some(slot) => (before + items).push(ItemView::Claim(slot)),
        None => before + items,
    };
    assert(claimed_after =~= before + claimed);
    assert(claimed_after + warnings =~= before + (claimed + warnings));
    let item = element_item(element, fields.values);
    assert((claimed_after + warnings).push(item) =~= before + (claimed + warnings).push(item));
}

/// A document is read the same, whatever was read before it: what it says is added at the end.
pub proof fn law_document_read_on_its_own(
    steps: Seq<StepView>,
    before: Seq<ItemView>,
    items: Seq<ItemView>,
    found: bool,
)
    ensures
        document_body(steps, before + items, found).items == before + document_body(
            steps,
            items,
            found,
        ).items,
        document_body(steps, before + items, found).error == document_body(
            steps,
            items,
            found,
        ).error,
    decreases steps.len(),
{
    if steps.len() > 0 {
        let rest = steps.drop_first();
        match steps[0].event {
            EventView::Start(tag) => {
                if tag.name == text_bytes("manifest"@) && !found {
                    lemma_manifest_rest(rest, items);
                    law_manifest_inside_read_on_its_own(rest, before, items);
                    let manifest = manifest_body(rest, items);
                    if manifest.error is None {
                        law_document_read_on_its_own(manifest.rest, before, manifest.items, true);
                    }
                }
            },
            EventView::Declaration => {
                law_document_read_on_its_own(rest, before, items, found);
            },
            EventView::Comment => {
                law_document_read_on_its_own(rest, before, items, found);
            },
            _ => {},
        }
    }
}

/// The elements that can stand in a manifest without children are eight, each under its own name.
pub proof fn law_elements_by_name(name: Seq<char>)
    ensures
        manifest_element(text_bytes("include"@)) == Some(Element::Include),
        manifest_element(text_bytes("project"@)) == Some(Element::Project),
        manifest_element(text_bytes("remote"@)) == Some(Element::Remote),
        manifest_element(text_bytes("default"@)) == Some(Element::Default),
        manifest_element(text_bytes("manifest-server"@)) == Some(Element::ManifestServer),
        manifest_element(text_bytes("superproject"@)) == Some(Element::SuperProject),
        manifest_element(text_bytes("contactinfo"@)) == Some(Element::ContactInfo),
        manifest_element(text_bytes("repo-hooks"@)) == Some(Element::RepoHooks),
        name != "include"@ && name != "project"@ && name != "remote"@ && name != "default"@ && name
            != "manifest-server"@ && name != "superproject"@ && name != "contactinfo"@ && name
            != "repo-hooks"@ ==> manifest_element(text_bytes(name)) is None,
{
    reveal_strlit("include");
    reveal_strlit("project");
    reveal_strlit("remote");
    reveal_strlit("default");
    reveal_strlit("manifest-server");
    reveal_strlit("superproject");
    reveal_strlit("contactinfo");
    reveal_strlit("repo-hooks");
    let names = seq![
        "include"@,
        "project"@,
        "remote"@,
        "default"@,
        "manifest-server"@,
        "superproject"@,
        "contactinfo"@,
        "repo-hooks"@,
    ];
    assert forall|i: int, j: int| 0 <= i < j < names.len() implies text_bytes(#[trigger] names[i])
        != text_bytes(#[trigger] names[j]) by {
        let a = names[i];
        let b = names[j];
        assert(a.len() != b.len() || a[0] != b[0]);
        lemma_bytes_tell(a, b);
    }
    assert(names[0] == "include"@ && names[1] == "project"@ && names[2] == "remote"@ && names[3]
        == "default"@);
    assert(names[4] == "manifest-server"@ && names[5] == "superproject"@ && names[6]
        == "contactinfo"@ && names[7] == "repo-hooks"@);
    if !names.contains(name) {
        assert forall|i: int| 0 <= i < names.len() implies text_bytes(#[trigger] names[i])
            != text_bytes(name) by {
            assert(names.contains(names[i]));
            lemma_bytes_tell(names[i], name);
        }
    }
    if names.contains(name) {
        let i = choose|i: int| 0 <= i < names.len() && names[i] == name;
    }
}

/// One step in front of others.
pub open spec fn before(event: EventView, position: usize, steps: Seq<StepView>) -> Seq<StepView> {
    seq![StepView { event, position }] + steps
}

/// An element without children says one thing, behind its claim where what it gives can be given
/// only once, and behind a warning for each attribute that it cannot have; where its attributes
/// are wrong the document is refused for that. What follows is read as it would be without it.
pub proof fn law_element_is_said(
    element: Element,
    tag: TagView,
    position: usize,
    steps: Seq<StepView>,
    items: Seq<ItemView>,
)
    requires
        manifest_element(tag.name) == Some(element),
        element != Element::Include,
    ensures
        ({
            let fields = read_element(element, tag);
            let claims = match element {
                Element::Default => seq![ItemView::Claim(Slot::Default)],
                Element::ManifestServer => seq![ItemView::Claim(Slot::ManifestServer)],
                Element::SuperProject => seq![ItemView::Claim(Slot::SuperProject)],
                Element::ContactInfo => seq![ItemView::Claim(Slot::ContactInfo)],
                Element::RepoHooks => seq![ItemView::Claim(Slot::RepoHooks)],
                _ => Seq::empty(),
            };
            let item = match element {
                Element::Remote => ItemView::Remote(remote_of(fields.values)),
                Element::Default => ItemView::Default(default_of(fields.values)),
                Element::ManifestServer => ItemView::ManifestServer(fields.values[0]->0),
                Element::SuperProject => ItemView::SuperProject(superproject_of(fields.values)),
                Element::ContactInfo => ItemView::ContactInfo(fields.values[0]->0),
                Element::RepoHooks => ItemView::RepoHooks(repo_hooks_of(fields.values)),
                _ => ItemView::Project(project_of(fields.values, Seq::empty())),
            };
            let warned = items + claims + warnings_of(element, fields.unknown);
            let read = manifest_body(before(EventView::Empty(tag), position, steps), items);
            &&& fields.error is None ==> read == manifest_body(steps, warned.push(item))
            &&& fields.error matches Some(error) ==> {
                &&& read.items == warned
                &&& read.error == Some(ParseErrorView::Attribute { element, error })
            }
        }),
{
    let all = before(EventView::Empty(tag), position, steps);
    assert(all.drop_first() =~= steps);
    assert(items + Seq::<ItemView>::empty() =~= items);
    if let Some(slot) = element_slot(element) {
        assert(items.push(ItemView::Claim(slot)) =~= items + seq![ItemView::Claim(slot)]);
    }
}

/// Every attribute that an element cannot have is warned of, in order.
pub proof fn law_unknown_attributes_are_warned_of(
    element: Element,
    unknown: Seq<Seq<u8>>,
    i: int,
)
    requires
        0 <= i < unknown.len(),
    ensures
        warnings_of(element, unknown).len() == unknown.len(),
        warnings_of(element, unknown)[i] == ItemView::Warning(
            WarningView::UnknownAttribute { element, key: unknown[i] },
        ),
{
}

/// A file is asked for where a document includes it by a name, and refused where the name leads
/// into a directory.
pub proof fn law_include_is_said(
    tag: TagView,
    position: usize,
    steps: Seq<StepView>,
    items: Seq<ItemView>,
    file: Seq<char>,
)
    requires
        tag.name == text_bytes("include"@),
        tag.attributes == seq![pair("name"@, file)],
    ensures
        ({
            let read = manifest_body(before(EventView::Empty(tag), position, steps), items);
            &&& !file.contains('/') ==> read == manifest_body(
                steps,
                items.push(ItemView::Include(file)),
            )
            &&& file.contains('/') ==> read.items == items && read.error == Some(
                ParseErrorView::SlashInInclude { file },
            )
        }),
{
    let all = before(EventView::Empty(tag), position, steps);
    assert(all.drop_first() =~= steps);
    law_elements_by_name("include"@);
    assert(tag.attributes[0] == pair("name"@, file));
    let name = seq!["name"@];
    assert(is_named(tag.attributes[0], name[0]));
    assert(is_named_among(tag.attributes[0], name));
    law_single_text_is_what_its_tag_says(Element::Include, "name"@, tag, file);
    let fields = read_element(Element::Include, tag);
    assert(tag.attributes.contains(pair("name"@, file)));
    assert(has(tag, "name"@));
    assert(fields.values[0] == Some(file));
    assert(items + warnings_of(Element::Include, fields.unknown) =~= items);
}

/// Each file of a project is added behind those before it, as what it is.
pub proof fn law_file_of_project_is_said(
    tag: TagView,
    position: usize,
    steps: Seq<StepView>,
    items: Seq<ItemView>,
    operations: Seq<FileOperationView>,
)
    requires
        tag.name == text_bytes("copyfile"@) || tag.name == text_bytes("linkfile"@),
    ensures
        ({
            let read = project_body(
                before(EventView::Empty(tag), position, steps),
                items,
                operations,
            );
            let element = if tag.name == text_bytes("copyfile"@) {
                Element::CopyFile
            } else {
                Element::LinkFile
            };
            let fields = read_element(element, tag);
            let warned = items + warnings_of(element, fields.unknown);
            let src = fields.values[0]->0;
            let dst = fields.values[1]->0;
            &&& fields.error is None && element == Element::CopyFile ==> read == project_body(
                steps,
                warned,
                operations.push(FileOperationView::CopyFile { src, dst }),
            )
            &&& fields.error is None && element == Element::LinkFile ==> read == project_body(
                steps,
                warned,
                operations.push(FileOperationView::LinkFile { src, dst }),
            )
            &&& fields.error matches Some(error) ==> read.error == Some(
                ParseErrorView::Attribute { element, error },
            )
        }),
{
    assert(before(EventView::Empty(tag), position, steps).drop_first() =~= steps);
}

/// Nothing is made of an annotation of a project but a warning, which says what it has; and nothing
/// at all of a comment. The end of the project ends it, and whatever else there is refuses it.
pub proof fn law_other_parts_of_project(
    tag: TagView,
    position: usize,
    steps: Seq<StepView>,
    items: Seq<ItemView>,
    operations: Seq<FileOperationView>,
    name: Seq<char>,
    value: Seq<char>,
)
    requires
        tag.name == text_bytes("annotation"@),
        tag.attributes == seq![pair("name"@, name), pair("value"@, value)],
    ensures
        project_body(before(EventView::Empty(tag), position, steps), items, operations)
            == project_body(
            steps,
            items.push(ItemView::Warning(WarningView::UnhandledAnnotation { name, value })),
            operations,
        ),
        project_body(before(EventView::Comment, position, steps), items, operations)
            == project_body(steps, items, operations),
        ({
            let ended = project_body(before(EventView::End, position, steps), items, operations);
            &&& ended.error is None
            &&& ended.items == items
            &&& ended.operations == operations
            &&& ended.rest == steps
        }),
        project_body(before(EventView::Start(tag), position, steps), items, operations).error
            == Some(
            ParseErrorView::UnexpectedStart { context: Context::Project, name: tag.name },
        ),
{
    assert(before(EventView::Empty(tag), position, steps).drop_first() =~= steps);
    assert(before(EventView::Comment, position, steps).drop_first() =~= steps);
    assert(before(EventView::End, position, steps).drop_first() =~= steps);
    reveal_strlit("annotation");
    reveal_strlit("copyfile");
    reveal_strlit("linkfile");
    assert("annotation"@.len() != "copyfile"@.len());
    assert("annotation"@.len() != "linkfile"@.len());
    lemma_bytes_tell("annotation"@, "copyfile"@);
    lemma_bytes_tell("annotation"@, "linkfile"@);
    let first = seq![pair("name"@, name)];
    let none = Seq::<TagAttributeView>::empty();
    law_empty_annotation();
    lemma_other_key();
    law_last_annotation_counts(none, None, None, name, text_bytes("key"@));
    assert(none.push(pair("name"@, name)) =~= first);
    law_last_annotation_counts(first, Some(name), None, value, text_bytes("key"@));
    assert(first.push(pair("value"@, value)) =~= tag.attributes);
}

/// There are other keys than those of an annotation.
proof fn lemma_other_key()
    ensures
        text_bytes("key"@) != text_bytes("name"@),
        text_bytes("key"@) != text_bytes("value"@),
{
    reveal_strlit("key");
    reveal_strlit("name");
    reveal_strlit("value");
    assert("key"@.len() == 3 && "name"@.len() == 4 && "value"@.len() == 5);
    lemma_bytes_tell("key"@, "name"@);
    lemma_bytes_tell("key"@, "value"@);
}

/// A warning of an annotation says what the annotation lacks: its name first, then its value.
pub proof fn law_annotation_warning(name: Seq<char>, value: Option<Seq<char>>)
    ensures
        annotation_warning(None, value) is UnnamedAnnotation,
        annotation_warning(Some(name), None) is EmptyAnnotation,
        value matches Some(text) ==> annotation_warning(Some(name), value) == (
        WarningView::UnhandledAnnotation { name, value: text }),
{
}

/// A notice, with a text or without one, is read over, and so is text that begins with `#`; other
/// text refuses the manifest. A notice with two texts is refused.
pub proof fn law_notices_are_read_over(
    tag: TagView,
    position: usize,
    raw: Seq<u8>,
    text: Seq<char>,
    steps: Seq<StepView>,
    items: Seq<ItemView>,
)
    requires
        tag.name == text_bytes("notice"@),
    ensures
        ({
            let said = EventView::Text { raw, text: Ok(text) };
            let ended = before(EventView::End, position, steps);
            let once = before(said, position, ended);
            let twice = before(said, position, once);
            &&& manifest_body(before(EventView::Start(tag), position, ended), items)
                == manifest_body(steps, items)
            &&& manifest_body(before(EventView::Start(tag), position, once), items)
                == manifest_body(steps, items)
            &&& manifest_body(before(EventView::Start(tag), position, twice), items).error == Some(
                ParseErrorView::MultipleTexts,
            )
            &&& raw.len() > 0 && raw[0] == 35u8 ==> manifest_body(
                before(said, position, steps),
                items,
            ) == manifest_body(steps, items)
            &&& raw.len() > 0 && raw[0] != 35u8 ==> manifest_body(
                before(said, position, steps),
                items,
            ).error == Some(ParseErrorView::UnexpectedText { text: raw })
        }),
{
    let said = EventView::Text { raw, text: Ok(text) };
    let ended = before(EventView::End, position, steps);
    let once = before(said, position, ended);
    let twice = before(said, position, once);
    assert(ended.drop_first() =~= steps);
    assert(once.drop_first() =~= ended);
    assert(twice.drop_first() =~= once);
    assert(before(EventView::Start(tag), position, ended).drop_first() =~= ended);
    assert(before(EventView::Start(tag), position, once).drop_first() =~= once);
    assert(before(EventView::Start(tag), position, twice).drop_first() =~= twice);
    assert(before(said, position, steps).drop_first() =~= steps);
    reveal_with_fuel(notice_body, 3);
}

/// The end of a manifest ends it, a comment is read over, and an element that cannot stand there
/// refuses it by its name.
pub proof fn law_other_parts_of_manifest(
    tag: TagView,
    position: usize,
    steps: Seq<StepView>,
    items: Seq<ItemView>,
)
    requires
        manifest_element(tag.name) is None,
    ensures
        ({
            let ended = manifest_body(before(EventView::End, position, steps), items);
            &&& ended.error is None
            &&& ended.items == items
            &&& ended.rest == steps
        }),
        manifest_body(before(EventView::Comment, position, steps), items) == manifest_body(
            steps,
            items,
        ),
        manifest_body(before(EventView::Empty(tag), position, steps), items).error == Some(
            ParseErrorView::UnexpectedEmpty { context: Context::Manifest, name: tag.name },
        ),
{
    assert(before(EventView::Comment, position, steps).drop_first() =~= steps);
    assert(before(EventView::End, position, steps).drop_first() =~= steps);
}

/// A document holds one manifest, and may have a declaration and comments around it: without one,
/// and with a second, it is refused.
pub proof fn law_document_holds_one_manifest(
    tag: TagView,
    position: usize,
    steps: Seq<StepView>,
    items: Seq<ItemView>,
    found: bool,
)
    requires
        tag.name == text_bytes("manifest"@),
    ensures
        document_body(before(EventView::Declaration, position, steps), items, found)
            == document_body(steps, items, found),
        document_body(before(EventView::Comment, position, steps), items, found) == document_body(
            steps,
            items,
            found,
        ),
        document_body(before(EventView::Finish, position, steps), items, true) == (FileView {
            items,
            error: None,
        }),
        document_body(before(EventView::Finish, position, steps), items, false).error == Some(
            ParseErrorView::NoManifest,
        ),
        document_body(before(EventView::Start(tag), position, steps), items, true).error == Some(
            ParseErrorView::MultipleManifests,
        ),
        ({
            let inside = manifest_body(steps, items);
            let whole = document_body(before(EventView::Start(tag), position, steps), items, false);
            &&& inside.error is None ==> whole == document_body(inside.rest, inside.items, true)
            &&& inside.error is Some ==> whole == (FileView {
                items: inside.items,
                error: inside.error,
            })
        }),
{
    assert(before(EventView::Declaration, position, steps).drop_first() =~= steps);
    assert(before(EventView::Comment, position, steps).drop_first() =~= steps);
    assert(before(EventView::Start(tag), position, steps).drop_first() =~= steps);
    lemma_manifest_rest(steps, items);
}

/// What is said of a manifest changes what it speaks of, and nothing else.
pub proof fn law_item_changes_its_part(
    manifest: ManifestView,
    default: DefaultView,
    superproject: SuperProjectView,
    hooks: RepoHooksView,
    text: Seq<char>,
    warning: WarningView,
)
    ensures
        ({
            let defaulted = with_item(manifest, ItemView::Default(default));
            let served = with_item(manifest, ItemView::ManifestServer(text));
            let grouped = with_item(manifest, ItemView::SuperProject(superproject));
            let contacted = with_item(manifest, ItemView::ContactInfo(text));
            let hooked = with_item(manifest, ItemView::RepoHooks(hooks));
            let warned = with_item(manifest, ItemView::Warning(warning));
            &&& defaulted is Ok && defaulted->Ok_0 == (ManifestView {
                default: Some(default),
                ..manifest
            })
            &&& served is Ok && served->Ok_0 == (ManifestView {
                manifest_server: Some(text),
                ..manifest
            })
            &&& grouped is Ok && grouped->Ok_0 == (ManifestView {
                superproject: Some(superproject),
                ..manifest
            })
            &&& contacted is Ok && contacted->Ok_0 == (ManifestView {
                contactinfo: Some(text),
                ..manifest
            })
            &&& hooked is Ok && hooked->Ok_0 == (ManifestView {
                repo_hooks: Some(hooks),
                ..manifest
            })
            &&& warned is Ok && warned->Ok_0 == manifest
        }),
{
}

/// What can be given only once is refused exactly where it has been given, each whatever else has.
pub proof fn law_given_once(manifest: ManifestView)
    ensures
        with_item(manifest, ItemView::Claim(Slot::Default)) is Ok <==> manifest.default is None,
        with_item(manifest, ItemView::Claim(Slot::ManifestServer)) is Ok
            <==> manifest.manifest_server is None,
        with_item(manifest, ItemView::Claim(Slot::SuperProject)) is Ok <==> manifest.superproject
            is None,
        with_item(manifest, ItemView::Claim(Slot::ContactInfo)) is Ok <==> manifest.contactinfo
            is None,
        with_item(manifest, ItemView::Claim(Slot::RepoHooks)) is Ok <==> manifest.repo_hooks is None,
        forall|slot: Slot|
            (#[trigger] with_item(manifest, ItemView::Claim(slot))) matches Ok(after) ==> after
                == manifest,
        forall|slot: Slot|
            (#[trigger] with_item(manifest, ItemView::Claim(slot))) matches Err(error) ==> error
                == (ParseErrorView::AlreadySet { slot }),
{
}

/// A remote is added behind the others exactly where none of them has its name.
pub proof fn law_remote_is_added(manifest: ManifestView, remote: RemoteView)
    ensures
        ({
            let added = with_item(manifest, ItemView::Remote(remote));
            let taken = exists|i: int|
                0 <= i < manifest.remotes.len() && (#[trigger] manifest.remotes[i]).name
                    == remote.name;
            &&& !taken ==> added is Ok && added->Ok_0 == (ManifestView {
                remotes: manifest.remotes.push(remote),
                ..manifest
            })
            &&& taken ==> added is Err && added->Err_0 == (ParseErrorView::DuplicateRemote {
                remote: remote.name,
            })
        }),
{
    law_find_first(manifest.remotes, |r: RemoteView| r.name == remote.name);
    if let Some(found) = remote_named(manifest.remotes, remote.name) {
        let i = choose|i: int| 0 <= i < manifest.remotes.len() && manifest.remotes[i] == found;
        assert(manifest.remotes[i].name == remote.name);
    }
}

/// A project is added at its path, or at its name where it has none, exactly where no other is at
/// that path, however it is spelt; nothing else of the manifest changes.
pub proof fn law_project_is_added(manifest: ManifestView, project: ProjectView)
    ensures
        ({
            let added = with_item(manifest, ItemView::Project(project));
            let place = match project.path {
                Some(path) => path,
                None => project.name,
            };
            let taken = exists|i: int|
                0 <= i < manifest.projects.len() && components(
                    (#[trigger] manifest.projects[i]).0,
                ) == components(place);
            &&& !taken ==> {
                &&& added is Ok
                &&& added->Ok_0 == (ManifestView { projects: added->Ok_0.projects, ..manifest })
                &&& added->Ok_0.projects.to_multiset() == manifest.projects.to_multiset().insert(
                    (place, project),
                )
            }
            &&& taken ==> added is Err && added->Err_0 == (ParseErrorView::DuplicateProject {
                path: place,
            })
        }),
{
    let place = project_path(project);
    law_find_first(
        manifest.projects,
        |e: (Seq<char>, ProjectView)| components(e.0) == components(place),
    );
    if let Some(found) = entry_at(manifest.projects, place) {
        let i = choose|i: int| 0 <= i < manifest.projects.len() && manifest.projects[i] == found;
        assert(components(manifest.projects[i].0) == components(place));
    } else {
        lemma_entries_before(manifest.projects, place);
        let at = entries_before(manifest.projects, place) as int;
        vstd::seq_lib::to_multiset_insert(manifest.projects, at, (place, project));
    }
}

/// The builder with some items in front of what its innermost file has to say.
pub open spec fn with_more(builder: BuilderView, items: Seq<ItemView>) -> BuilderView {
    BuilderView {
        pending: builder.pending.drop_last().push(
            FileView {
                items: items + builder.pending.last().items,
                error: builder.pending.last().error,
            },
        ),
        ..builder
    }
}

/// A file that is included says what it has to say in the place of its name: going on with the file
/// is going on with its items in front of those that follow, where the file includes none itself.
pub proof fn law_included_in_place(builder: BuilderView, items: Seq<ItemView>)
    requires
        builder.pending.len() > 0,
        forall|i: int| 0 <= i < items.len() ==> !(#[trigger] items[i] is Include),
    ensures
        ({
            let supplied = advanced(supplied_with(builder, (FileView { items, error: None })));
            let spliced = advanced(with_more(builder, items));
            &&& supplied.0.manifest == spliced.0.manifest
            &&& supplied.0.warnings == spliced.0.warnings
            &&& supplied.1 == spliced.1
        }),
    decreases items.len(),
{
    let file = FileView { items, error: None };
    let one = supplied_with(builder, file);
    let two = with_more(builder, items);
    lemma_less_work(one.pending);
    lemma_less_work(two.pending);
    assert(one.pending.drop_last() =~= builder.pending);
    assert(two.pending.drop_last() =~= builder.pending.drop_last());
    if items.len() == 0 {
        assert(items + builder.pending.last().items =~= builder.pending.last().items);
        assert(two.pending =~= builder.pending);
    } else {
        let rest = items.drop_first();
        assert forall|i: int| 0 <= i < rest.len() implies !(#[trigger] rest[i] is Include) by {
            assert(rest[i] == items[i + 1]);
        }
        assert((items + builder.pending.last().items).drop_first() =~= rest
            + builder.pending.last().items);
        assert((items + builder.pending.last().items)[0] == items[0]);
        assert(!(items[0] is Include));
        assert(without_next(one.pending) =~= supplied_with(
            builder,
            (FileView { items: rest, error: None }),
        ).pending);
        assert(without_next(two.pending) =~= with_more(builder, rest).pending);
        match items[0] {
            ItemView::Warning(warning) => {
                let next = BuilderView { warnings: builder.warnings.push(warning), ..builder };
                law_included_in_place(next, rest);
            },
            ItemView::Include(_) => {},
            item => match with_item(builder.manifest, item) {
                Ok(manifest) => {
                    law_included_in_place(BuilderView { manifest, ..builder }, rest);
                },
                Err(_) => {},
            },
        }
    }
}

/// A builder asks for a file as soon as one is named, and goes on behind the name later; it notes
/// each warning; it stops at the first thing that cannot be said, with the manifest as it was; and
/// where a file ends in a reason to refuse it, that is the reason.
pub proof fn law_builder_goes_on(
    builder: BuilderView,
    name: Seq<char>,
    warning: WarningView,
    item: ItemView,
    error: ParseErrorView,
)
    requires
        builder.pending.len() > 0,
        !(item is Include),
        !(item is Warning),
    ensures
        ({
            let asked = advanced(with_more(builder, seq![ItemView::Include(name)]));
            let warned = advanced(with_more(builder, seq![ItemView::Warning(warning)]));
            let said = advanced(with_more(builder, seq![item]));
            let ended = advanced(
                supplied_with(builder, (FileView { items: Seq::empty(), error: Some(error) })),
            );
            &&& asked.1 == ProgressView::NeedFile(name)
            &&& asked.0 == builder
            &&& warned == advanced(
                (BuilderView { warnings: builder.warnings.push(warning), ..builder }),
            )
            &&& with_item(builder.manifest, item) matches Ok(manifest) ==> said == advanced(
                (BuilderView { manifest, ..builder }),
            )
            &&& with_item(builder.manifest, item) matches Err(reason) ==> {
                &&& said.1 == ProgressView::Failed(reason)
                &&& said.0.manifest == builder.manifest
            }
            &&& ended.1 == ProgressView::Failed(error)
            &&& ended.0 == builder
        }),
        advanced((BuilderView { pending: Seq::empty(), ..builder })).1 is Done,
        advanced((BuilderView { pending: Seq::empty(), ..builder })).0.manifest == builder.manifest,
{
    let last = builder.pending.last().items;
    let asking = with_more(builder, seq![ItemView::Include(name)]);
    let warning_one = with_more(builder, seq![ItemView::Warning(warning)]);
    let saying = with_more(builder, seq![item]);
    assert((seq![ItemView::Include(name)] + last).drop_first() =~= last);
    assert((seq![ItemView::Warning(warning)] + last).drop_first() =~= last);
    assert((seq![item] + last).drop_first() =~= last);
    assert(without_next(asking.pending) =~= builder.pending);
    assert(without_next(warning_one.pending) =~= builder.pending);
    assert(without_next(saying.pending) =~= builder.pending);
    lemma_less_work(asking.pending);
    lemma_less_work(warning_one.pending);
    lemma_less_work(saying.pending);
    let ending = supplied_with(builder, (FileView { items: Seq::empty(), error: Some(error) }));
    lemma_less_work(ending.pending);
    assert(ending.pending.drop_last() =~= builder.pending);
}

/// Files are supplied in the order in which they are asked for, each as soon as it is, and only as
/// many as are asked for.
pub proof fn law_files_supplied_in_order(
    builder: BuilderView,
    file: Seq<u8>,
    more: Seq<Seq<u8>>,
)
    ensures
        advanced(builder).1 is NeedFile ==> advanced_with(builder, seq![file] + more)
            == advanced_with(
            supplied_with(advanced(builder).0, document_body(
                decoded_steps(file),
                Seq::empty(),
                false,
            )),
            more,
        ),
        !(advanced(builder).1 is NeedFile) ==> advanced_with(builder, seq![file] + more)
            == advanced(builder),
        advanced_with(builder, Seq::empty()) == advanced(builder),
{
    let all = seq![file] + more;
    assert(all.drop_first() =~= more);
    assert(all[0] == file);
}

/// A builder begins with its first document and nothing else.
pub proof fn law_builder_begins(document: Seq<u8>)
    ensures
        begun(document).manifest == empty_manifest(),
        begun(document).warnings.len() == 0,
        begun(document).pending == seq![
            document_body(decoded_steps(document), Seq::empty(), false),
        ],
{
}

/// What is no XML refuses a document wherever it stands, for its reason and by its place.
pub proof fn law_malformed_refuses(
    reason: Seq<char>,
    position: usize,
    steps: Seq<StepView>,
    items: Seq<ItemView>,
    operations: Seq<FileOperationView>,
    text: Option<Seq<char>>,
    found: bool,
)
    ensures
        ({
            let all = before(EventView::Malformed(reason), position, steps);
            let error = Some(ParseErrorView::Malformed { position, reason });
            &&& document_body(all, items, found).error == error
            &&& manifest_body(all, items).error == error
            &&& project_body(all, items, operations).error == error
            &&& notice_body(all, text).error == error
        }),
{
}

/// What cannot stand where it stands refuses a document: text in a project, an element in a notice,
/// a declaration in a manifest or in a project, the end of the document before that of what it
/// holds, and an element beside the manifest.
pub proof fn law_misplaced_refuses(
    tag: TagView,
    raw: Seq<u8>,
    read: Result<Seq<char>, Seq<char>>,
    position: usize,
    steps: Seq<StepView>,
    items: Seq<ItemView>,
    operations: Seq<FileOperationView>,
    found: bool,
)
    ensures
        project_body(
            before(EventView::Text { raw, text: read }, position, steps),
            items,
            operations,
        ).error == Some(ParseErrorView::UnexpectedEvent { context: Context::Project, position }),
        project_body(before(EventView::Declaration, position, steps), items, operations).error
            == Some(ParseErrorView::UnexpectedEvent { context: Context::Project, position }),
        project_body(before(EventView::Finish, position, steps), items, operations).error == Some(
            ParseErrorView::UnexpectedEvent { context: Context::Project, position },
        ),
        manifest_body(before(EventView::Declaration, position, steps), items).error == Some(
            ParseErrorView::UnexpectedEvent { context: Context::Manifest, position },
        ),
        manifest_body(before(EventView::Finish, position, steps), items).error == Some(
            ParseErrorView::UnexpectedEvent { context: Context::Manifest, position },
        ),
        notice_body(before(EventView::Start(tag), position, steps), None).error == Some(
            ParseErrorView::UnexpectedStart { context: Context::Notice, name: tag.name },
        ),
        notice_body(before(EventView::Empty(tag), position, steps), None).error == Some(
            ParseErrorView::UnexpectedEmpty { context: Context::Notice, name: tag.name },
        ),
        read matches Err(reason) ==> notice_body(
            before(EventView::Text { raw, text: read }, position, steps),
            None,
        ).error == Some(ParseErrorView::BadNotice { reason }),
        document_body(before(EventView::Empty(tag), position, steps), items, found).error == Some(
            ParseErrorView::UnexpectedEmpty { context: Context::Document, name: tag.name },
        ),
        document_body(before(EventView::End, position, steps), items, found).error == Some(
            ParseErrorView::UnexpectedEvent { context: Context::Document, position },
        ),
        tag.name != text_bytes("manifest"@) ==> document_body(
            before(EventView::Start(tag), position, steps),
            items,
            found,
        ).error == Some(
            ParseErrorView::UnexpectedStart { context: Context::Document, name: tag.name },
        ),
        tag.name != text_bytes("notice"@) && tag.name != text_bytes("project"@) ==> manifest_body(
            before(EventView::Start(tag), position, steps),
            items,
        ).error == Some(
            ParseErrorView::UnexpectedStart { context: Context::Manifest, name: tag.name },
        ),
{
}

/// A project with children says the project that it is, with its files, behind what is warned of in
/// it; where its attributes or its inside are wrong, the document is refused for that.
pub proof fn law_project_with_children_is_said(
    tag: TagView,
    position: usize,
    steps: Seq<StepView>,
    items: Seq<ItemView>,
)
    requires
        tag.name == text_bytes("project"@),
    ensures
        ({
            let fields = read_element(Element::Project, tag);
            let warned = items + warnings_of(Element::Project, fields.unknown);
            let inside = project_body(steps, warned, Seq::empty());
            let read = manifest_body(before(EventView::Start(tag), position, steps), items);
            &&& fields.error matches Some(error) ==> read.error == Some(
                ParseErrorView::Attribute { element: Element::Project, error },
            )
            &&& fields.error is None && inside.error is Some ==> read.error == inside.error
            &&& fields.error is None && inside.error is None ==> read == manifest_body(
                inside.rest,
                inside.items.push(
                    ItemView::Project(project_of(fields.values, inside.operations)),
                ),
            )
        }),
{
    let all = before(EventView::Start(tag), position, steps);
    assert(all.drop_first() =~= steps);
    reveal_strlit("project");
    reveal_strlit("notice");
    assert("project"@.len() != "notice"@.len());
    lemma_bytes_tell("project"@, "notice"@);
    lemma_project_read_rest(tag, steps, items);
}

} // verus!
