//! What a manifest holds is what its documents say.
use vstd::multiset::Multiset;
use vstd::prelude::*;

use crate::manifest::builder::{
    advanced, advanced_with, begun, consistent, law_parsed_consistent, lemma_less_work, supplied,
    with_item, without_next, work, BuilderView,
};
use crate::manifest::collections::{entries_before, lemma_entries_before};
use crate::manifest::elements::{
    operation_of, project_of, read_annotation, read_element, Element,
};
use crate::manifest::parser::{
    annotation_warning, document_body, element_item, element_read, element_slot, file_read,
    lemma_manifest_rest, lemma_notice_rest, lemma_project_read_rest, manifest_body,
    manifest_element, notice_body, project_body, project_read, warnings_of, FileView, ItemView,
};
use crate::manifest::readback::lemma_bytes_tell;
use crate::manifest::{
    empty_manifest, project_path, FileOperationView, ManifestView, ProjectView, RemoteView,
};
use crate::text::text_bytes;
use crate::xml::{EventView, StepView, TagView};

verus! {

/// The projects and the remotes of a manifest, each as often as it is there.
#[verifier::ext_equal]
pub struct Contents {
    pub projects: Multiset<(Seq<char>, ProjectView)>,
    pub remotes: Multiset<RemoteView>,
}

/// Nothing.
pub open spec fn no_contents() -> Contents {
    Contents { projects: Multiset::empty(), remotes: Multiset::empty() }
}

/// All of both.
pub open spec fn both(a: Contents, b: Contents) -> Contents {
    Contents { projects: a.projects.add(b.projects), remotes: a.remotes.add(b.remotes) }
}

/// What one item says.
pub open spec fn item_contents(item: ItemView) -> Contents {
    match item {
        ItemView::Project(project) => Contents {
            projects: Multiset::singleton((project_path(project), project)),
            remotes: Multiset::empty(),
        },
        ItemView::Remote(remote) => Contents {
            projects: Multiset::empty(),
            remotes: Multiset::singleton(remote),
        },
        _ => no_contents(),
    }
}

/// What some items say.
pub open spec fn said(items: Seq<ItemView>) -> Contents
    decreases items.len(),
{
    if items.len() == 0 {
        no_contents()
    } else {
        both(item_contents(items[0]), said(items.drop_first()))
    }
}

/// What documents say, one after another.
pub open spec fn said_in(documents: Seq<Seq<u8>>) -> Contents
    decreases documents.len(),
{
    if documents.len() == 0 {
        no_contents()
    } else {
        both(said(file_read(documents[0]).items), said_in(documents.drop_first()))
    }
}

/// What files have yet to say.
pub open spec fn pending_contents(pending: Seq<FileView>) -> Contents
    decreases pending.len(),
{
    if pending.len() == 0 {
        no_contents()
    } else {
        both(pending_contents(pending.drop_last()), said(pending.last().items))
    }
}

/// What a manifest holds.
pub open spec fn contents_of(manifest: ManifestView) -> Contents {
    Contents {
        projects: manifest.projects.to_multiset(),
        remotes: manifest.remotes.to_multiset(),
    }
}

/// What a builder holds and has yet to be told.
pub open spec fn contents_in_all(builder: BuilderView) -> Contents {
    both(contents_of(builder.manifest), pending_contents(builder.pending))
}

/// The included files that are taken, in the order in which they are asked for.
pub open spec fn taken(builder: BuilderView, included: Seq<Seq<u8>>) -> Seq<Seq<u8>>
    decreases included.len(),
{
    let now = advanced(builder);
    if now.1 is NeedFile && included.len() > 0 {
        seq![included[0]] + taken(supplied(now.0, included[0]), included.drop_first())
    } else {
        Seq::empty()
    }
}

/// An item that is accepted adds what it says, and nothing else.
proof fn lemma_item_adds(manifest: ManifestView, item: ItemView)
    ensures
        with_item(manifest, item) matches Ok(after) ==> contents_of(after) == both(
            contents_of(manifest),
            item_contents(item),
        ),
{
    broadcast use vstd::multiset::group_multiset_axioms;

    match item {
        ItemView::Remote(remote) => {
            vstd::seq_lib::to_multiset_build(manifest.remotes, remote);
        },
        ItemView::Project(project) => {
            let path = project_path(project);
            lemma_entries_before(manifest.projects, path);
            vstd::seq_lib::to_multiset_insert(
                manifest.projects,
                entries_before(manifest.projects, path) as int,
                (path, project),
            );
        },
        _ => {},
    }
    if with_item(manifest, item) is Ok {
        assert(contents_of(with_item(manifest, item)->Ok_0) =~= both(
            contents_of(manifest),
            item_contents(item),
        ));
    }
}

proof fn lemma_both_in_turn(a: Contents, b: Contents, c: Contents)
    ensures
        both(both(a, b), c) == both(a, both(b, c)),
        both(a, b) == both(b, a),
        both(a, no_contents()) == a,
{
    broadcast use vstd::multiset::group_multiset_axioms;

    assert(both(both(a, b), c) =~= both(a, both(b, c)));
    assert(both(a, b) =~= both(b, a));
    assert(both(a, no_contents()) =~= a);
}

/// As long as nothing is refused, nothing is lost and nothing is made up.
proof fn lemma_advanced_contents(builder: BuilderView)
    ensures
        !(advanced(builder).1 is Failed) ==> contents_in_all(advanced(builder).0)
            == contents_in_all(builder),
        advanced(builder).1 is Done ==> advanced(builder).0.pending.len() == 0,
    decreases work(builder.pending),
{
    let pending = builder.pending;
    if pending.len() > 0 {
        lemma_less_work(pending);
        let file = pending.last();
        let before = pending_contents(pending.drop_last());
        let held = contents_of(builder.manifest);
        if file.items.len() == 0 {
            lemma_both_in_turn(before, no_contents(), no_contents());
            lemma_advanced_contents(BuilderView { pending: pending.drop_last(), ..builder });
        } else {
            let left = BuilderView { pending: without_next(pending), ..builder };
            let item = file.items[0];
            let added = item_contents(item);
            let rest = said(file.items.drop_first());
            assert(without_next(pending).drop_last() =~= pending.drop_last());
            assert(pending_contents(left.pending) == both(before, rest));
            // The item moves from what is pending to what is held.
            lemma_both_in_turn(held, added, both(before, rest));
            lemma_both_in_turn(added, before, rest);
            lemma_both_in_turn(before, added, rest);
            lemma_item_adds(builder.manifest, item);
            match item {
                ItemView::Include(_) => {},
                ItemView::Warning(warning) => {
                    lemma_advanced_contents(
                        BuilderView { warnings: builder.warnings.push(warning), ..left },
                    );
                },
                _ => match with_item(builder.manifest, item) {
                    Ok(manifest) => {
                        lemma_advanced_contents(BuilderView { manifest, ..left });
                    },
                    Err(_) => {},
                },
            }
        }
    }
}

proof fn lemma_supplied_contents(builder: BuilderView, included: Seq<Seq<u8>>)
    ensures
        advanced_with(builder, included).1 is Done ==> contents_of(
            advanced_with(builder, included).0.manifest,
        ) == both(contents_in_all(builder), said_in(taken(builder, included))),
    decreases included.len(),
{
    let now = advanced(builder);
    lemma_advanced_contents(builder);
    let all = contents_in_all(builder);
    if now.1 is NeedFile && included.len() > 0 {
        let next = supplied(now.0, included[0]);
        let more = included.drop_first();
        let added = said(file_read(included[0]).items);
        lemma_supplied_contents(next, more);
        assert(next.pending.drop_last() =~= now.0.pending);
        assert(taken(builder, included)[0] == included[0]);
        assert(taken(builder, included).drop_first() =~= taken(next, more));
        lemma_both_in_turn(
            contents_of(now.0.manifest),
            pending_contents(now.0.pending),
            added,
        );
        lemma_both_in_turn(all, added, said_in(taken(next, more)));
    } else if now.1 is Done {
        lemma_both_in_turn(contents_of(now.0.manifest), no_contents(), no_contents());
        lemma_both_in_turn(all, no_contents(), no_contents());
    }
}

/// A manifest that was read holds the projects and the remotes that its document and the files that
/// were included say, each as often as it is said, and no others; and as names and paths are
/// distinct, each is there once.
pub proof fn law_all_said_is_held(document: Seq<u8>, included: Seq<Seq<u8>>)
    requires
        advanced_with(begun(document), included).1 is Done,
    ensures
        ({
            let manifest = advanced_with(begun(document), included).0.manifest;
            let documents = seq![document] + taken(begun(document), included);
            &&& contents_of(manifest) == said_in(documents)
            &&& consistent(manifest)
            &&& forall|entry: (Seq<char>, ProjectView)|
                said_in(documents).projects.count(entry) <= 1
            &&& forall|remote: RemoteView| said_in(documents).remotes.count(remote) <= 1
        }),
{
    let builder = begun(document);
    let manifest = advanced_with(builder, included).0.manifest;
    let files = taken(builder, included);
    let documents = seq![document] + files;
    lemma_supplied_contents(builder, included);
    assert(documents.drop_first() =~= files);
    let own = said(file_read(document).items);
    assert(builder.pending.drop_last() =~= Seq::empty());
    assert(pending_contents(builder.pending) == both(no_contents(), own)) by {
        reveal_with_fuel(pending_contents, 2);
    }
    vstd::seq_lib::to_multiset_len(Seq::<(Seq<char>, ProjectView)>::empty());
    vstd::seq_lib::to_multiset_len(Seq::<RemoteView>::empty());
    assert(contents_of(empty_manifest()) =~= no_contents()) by {
        broadcast use vstd::multiset::group_multiset_properties;

    }
    lemma_both_in_turn(no_contents(), own, no_contents());
    lemma_both_in_turn(own, no_contents(), no_contents());
    assert(contents_in_all(builder) == own);
    law_parsed_consistent(builder, included);
    assert(manifest.projects.no_duplicates()) by {
        assert forall|i: int, j: int| 0 <= i < j < manifest.projects.len() implies
            manifest.projects[i] != manifest.projects[j] by {
            crate::manifest::collections::lemma_same_order_unless(
                manifest.projects[i].0,
                manifest.projects[j].0,
            );
        }
    }
    assert(manifest.remotes.no_duplicates()) by {
        assert forall|i: int, j: int| 0 <= i < j < manifest.remotes.len() implies
            manifest.remotes[i] != manifest.remotes[j] by {
            assert(manifest.remotes[i].name != manifest.remotes[j].name);
        }
    }
    manifest.projects.lemma_multiset_has_no_duplicates();
    manifest.remotes.lemma_multiset_has_no_duplicates();
    assert forall|entry: (Seq<char>, ProjectView)| said_in(documents).projects.count(
        entry,
    ) <= 1 by {
        assert(manifest.projects.to_multiset().contains(entry) ==> manifest.projects.to_multiset().count(
            entry,
        ) == 1);
    }
    assert forall|remote: RemoteView| said_in(documents).remotes.count(remote) <= 1 by {
        assert(manifest.remotes.to_multiset().contains(remote) ==> manifest.remotes.to_multiset().count(
            remote,
        ) == 1);
    }
}

/// How many tags of a name a document has.
pub open spec fn tag_count(steps: Seq<StepView>, name: Seq<u8>) -> nat
    decreases steps.len(),
{
    if steps.len() == 0 {
        0
    } else {
        let rest = tag_count(steps.drop_first(), name);
        match steps[0].event {
            EventView::Finish => 0,
            EventView::Start(tag) => if tag.name == name {
                rest + 1
            } else {
                rest
            },
            EventView::Empty(tag) => if tag.name == name {
                rest + 1
            } else {
                rest
            },
            _ => rest,
        }
    }
}

/// The name of the tag of a project.
pub open spec fn project_name() -> Seq<u8> {
    text_bytes("project"@)
}

/// The name of the tag of a remote.
pub open spec fn remote_name() -> Seq<u8> {
    text_bytes("remote"@)
}

/// Between two places of a document there are as many tags as what is said has grown by.
pub open spec fn keeps_count(
    steps: Seq<StepView>,
    items: Seq<ItemView>,
    rest: Seq<StepView>,
    after: Seq<ItemView>,
) -> bool {
    &&& said(items).projects.len() + tag_count(steps, project_name())
        == said(after).projects.len() + tag_count(rest, project_name())
    &&& said(items).remotes.len() + tag_count(steps, remote_name()) == said(after).remotes.len()
        + tag_count(rest, remote_name())
}

proof fn lemma_names()
    ensures
        project_name() != remote_name(),
        forall|i: int|
            0 <= i < other_names().len() ==> text_bytes(#[trigger] other_names()[i])
                != project_name() && text_bytes(other_names()[i]) != remote_name(),
{
    reveal_strlit("project");
    reveal_strlit("remote");
    reveal_strlit("copyfile");
    reveal_strlit("linkfile");
    reveal_strlit("annotation");
    reveal_strlit("notice");
    reveal_strlit("manifest");
    reveal_strlit("include");
    reveal_strlit("default");
    reveal_strlit("manifest-server");
    reveal_strlit("superproject");
    reveal_strlit("contactinfo");
    reveal_strlit("repo-hooks");
    lemma_bytes_tell("project"@, "remote"@);
    assert forall|i: int| 0 <= i < other_names().len() implies text_bytes(
        #[trigger] other_names()[i],
    ) != project_name() && text_bytes(other_names()[i]) != remote_name() by {
        let name = other_names()[i];
        assert(name.len() != 7 || name[0] != 'p');
        assert(name.len() != 6 || name[0] != 'r');
        lemma_bytes_tell(name, "project"@);
        lemma_bytes_tell(name, "remote"@);
    }
}

/// The names of the other tags.
spec fn other_names() -> Seq<Seq<char>> {
    seq![
        "copyfile"@,
        "linkfile"@,
        "annotation"@,
        "notice"@,
        "manifest"@,
        "include"@,
        "default"@,
        "manifest-server"@,
        "superproject"@,
        "contactinfo"@,
        "repo-hooks"@,
    ]
}

proof fn lemma_said_both(items: Seq<ItemView>, more: Seq<ItemView>)
    ensures
        said(items + more) == both(said(items), said(more)),
    decreases items.len(),
{
    if items.len() == 0 {
        assert(items + more =~= more);
        lemma_both_in_turn(said(more), no_contents(), no_contents());
        lemma_both_in_turn(no_contents(), said(more), no_contents());
    } else {
        assert((items + more).drop_first() =~= items.drop_first() + more);
        lemma_said_both(items.drop_first(), more);
        lemma_both_in_turn(item_contents(items[0]), said(items.drop_first()), said(more));
    }
}

proof fn lemma_said_push(items: Seq<ItemView>, item: ItemView)
    ensures
        said(items.push(item)) == both(said(items), item_contents(item)),
{
    let one = seq![item];
    assert(items.push(item) =~= items + one);
    lemma_said_both(items, one);
    reveal_with_fuel(said, 2);
    assert(one.drop_first() =~= Seq::empty());
    lemma_both_in_turn(item_contents(item), no_contents(), no_contents());
}

/// Warnings say nothing of projects and remotes.
proof fn lemma_warnings_say_nothing(
    items: Seq<ItemView>,
    element: Element,
    unknown: Seq<Seq<u8>>,
)
    ensures
        said(items + warnings_of(element, unknown)) == said(items),
    decreases unknown.len(),
{
    let all = warnings_of(element, unknown);
    if unknown.len() == 0 {
        assert(items + all =~= items);
    } else {
        let front = unknown.drop_last();
        lemma_warnings_say_nothing(items, element, front);
        assert(items + all =~= (items + warnings_of(element, front)).push(all.last()));
        lemma_said_push(items + warnings_of(element, front), all.last());
        lemma_both_in_turn(said(items), no_contents(), no_contents());
    }
}

proof fn lemma_notice_counts(steps: Seq<StepView>, text: Option<Seq<char>>, name: Seq<u8>)
    ensures
        notice_body(steps, text).error is None ==> tag_count(steps, name) == tag_count(
            notice_body(steps, text).rest,
            name,
        ),
    decreases steps.len(),
{
    if steps.len() > 0 {
        let rest = steps.drop_first();
        match steps[0].event {
            EventView::Comment => {
                lemma_notice_counts(rest, text, name);
            },
            EventView::Text { text: found, .. } => match found {
                Ok(read) => {
                    lemma_notice_counts(rest, Some(read), name);
                },
                Err(_) => {},
            },
            _ => {},
        }
    }
}

proof fn lemma_project_body_counts(
    steps: Seq<StepView>,
    items: Seq<ItemView>,
    operations: Seq<FileOperationView>,
)
    ensures
        ({
            let body = project_body(steps, items, operations);
            body.error is None ==> said(body.items) == said(items) && tag_count(
                steps,
                project_name(),
            ) == tag_count(body.rest, project_name()) && tag_count(steps, remote_name())
                == tag_count(body.rest, remote_name())
        }),
    decreases steps.len(),
{
    if steps.len() > 0 {
        let rest = steps.drop_first();
        match steps[0].event {
            EventView::Empty(tag) => {
                assert(other_names()[0] == "copyfile"@ && other_names()[1] == "linkfile"@
                    && other_names()[2] == "annotation"@);
                lemma_names();
                if tag.name == text_bytes("copyfile"@) || tag.name == text_bytes("linkfile"@) {
                    let element = if tag.name == text_bytes("copyfile"@) {
                        Element::CopyFile
                    } else {
                        Element::LinkFile
                    };
                    let fields = read_element(element, tag);
                    lemma_warnings_say_nothing(items, element, fields.unknown);
                    lemma_project_body_counts(
                        rest,
                        items + warnings_of(element, fields.unknown),
                        operations.push(operation_of(element, fields.values)),
                    );
                } else {
                    match read_annotation(tag.attributes, None, None) {
                        Ok((name, value)) => {
                            let item = ItemView::Warning(annotation_warning(name, value));
                            lemma_said_push(items, item);
                            lemma_both_in_turn(said(items), no_contents(), no_contents());
                            lemma_project_body_counts(rest, items.push(item), operations);
                        },
                        Err(_) => {},
                    }
                }
            },
            EventView::Comment => {
                lemma_project_body_counts(rest, items, operations);
            },
            _ => {},
        }
    }
}

/// One more project is said.
proof fn lemma_one_project(items: Seq<ItemView>, project: ProjectView)
    ensures
        said(items.push(ItemView::Project(project))).projects.len() == said(items).projects.len()
            + 1,
        said(items.push(ItemView::Project(project))).remotes == said(items).remotes,
{
    broadcast use vstd::multiset::group_multiset_axioms;

    let item = ItemView::Project(project);
    lemma_said_push(items, item);
    assert(said(items.push(item)).remotes =~= said(items).remotes);
}

proof fn lemma_project_counts(tag: TagView, steps: Seq<StepView>, items: Seq<ItemView>)
    ensures
        ({
            let read = project_read(tag, steps, items);
            &&& read.error is None ==> said(read.items).projects.len() == said(
                items,
            ).projects.len() + 1
            &&& read.error is None ==> said(read.items).remotes.len() == said(items).remotes.len()
            &&& read.error is None ==> tag_count(steps, project_name()) == tag_count(
                read.rest,
                project_name(),
            )
            &&& read.error is None ==> tag_count(steps, remote_name()) == tag_count(
                read.rest,
                remote_name(),
            )
        }),
{
    let fields = read_element(Element::Project, tag);
    let warned = items + warnings_of(Element::Project, fields.unknown);
    lemma_warnings_say_nothing(items, Element::Project, fields.unknown);
    lemma_project_body_counts(steps, warned, Seq::empty());
    let body = project_body(steps, warned, Seq::empty());
    lemma_one_project(body.items, project_of(fields.values, body.operations));
}

/// An element says what its item says.
proof fn lemma_element_says(element: Element, tag: TagView, items: Seq<ItemView>)
    ensures
        element_read(element, tag, items).1 is None ==> said(element_read(element, tag, items).0)
            == both(
            said(items),
            item_contents(element_item(element, read_element(element, tag).values)),
        ),
{
    let claimed = match element_slot(element) {
        Some(slot) => items.push(ItemView::Claim(slot)),
        None => items,
    };
    if element_slot(element) is Some {
        lemma_said_push(items, ItemView::Claim(element_slot(element)->0));
    }
    lemma_both_in_turn(said(items), no_contents(), no_contents());
    let fields = read_element(element, tag);
    lemma_warnings_say_nothing(claimed, element, fields.unknown);
    lemma_said_push(
        claimed + warnings_of(element, fields.unknown),
        element_item(element, fields.values),
    );
}

proof fn lemma_element_counts(element: Element, tag: TagView, items: Seq<ItemView>)
    requires
        manifest_element(tag.name) == Some(element),
    ensures
        ({
            let read = element_read(element, tag, items);
            &&& read.1 is None ==> said(read.0).projects.len() == said(items).projects.len() + if
                tag.name == project_name() {
                1nat
            } else {
                0nat
            }
            &&& read.1 is None ==> said(read.0).remotes.len() == said(items).remotes.len() + if
                tag.name == remote_name() {
                1nat
            } else {
                0nat
            }
        }),
{
    broadcast use vstd::multiset::group_multiset_axioms;

    lemma_element_says(element, tag, items);
    lemma_names();
    assert(other_names()[5] == "include"@ && other_names()[6] == "default"@ && other_names()[7]
        == "manifest-server"@ && other_names()[8] == "superproject"@ && other_names()[9]
        == "contactinfo"@ && other_names()[10] == "repo-hooks"@);
}

proof fn lemma_manifest_counts(steps: Seq<StepView>, items: Seq<ItemView>)
    ensures
        manifest_body(steps, items).error is None ==> keeps_count(
            steps,
            items,
            manifest_body(steps, items).rest,
            manifest_body(steps, items).items,
        ),
    decreases steps.len(),
{
    if steps.len() > 0 {
        let rest = steps.drop_first();
        match steps[0].event {
            EventView::Start(tag) => {
                lemma_names();
                assert(other_names()[3] == "notice"@);
                lemma_notice_rest(rest, None);
                lemma_project_read_rest(tag, rest, items);
                if tag.name == text_bytes("notice"@) {
                    lemma_notice_counts(rest, None, project_name());
                    lemma_notice_counts(rest, None, remote_name());
                    lemma_manifest_counts(notice_body(rest, None).rest, items);
                } else if tag.name == project_name() {
                    let project = project_read(tag, rest, items);
                    lemma_project_counts(tag, rest, items);
                    lemma_manifest_counts(project.rest, project.items);
                }
            },
            EventView::Empty(tag) => match manifest_element(tag.name) {
                Some(element) => {
                    lemma_element_counts(element, tag, items);
                    lemma_manifest_counts(rest, element_read(element, tag, items).0);
                },
                None => {},
            },
            EventView::Comment => {
                lemma_manifest_counts(rest, items);
            },
            EventView::Text { .. } => {
                lemma_manifest_counts(rest, items);
            },
            _ => {},
        }
    }
}

/// A document that is not refused says as many projects and remotes as it has tags of them.
pub proof fn law_every_tag_is_said(steps: Seq<StepView>, items: Seq<ItemView>, found: bool)
    requires
        document_body(steps, items, found).error is None,
    ensures
        said(document_body(steps, items, found).items).projects.len() == said(items).projects.len()
            + tag_count(steps, project_name()),
        said(document_body(steps, items, found).items).remotes.len() == said(items).remotes.len()
            + tag_count(steps, remote_name()),
    decreases steps.len(),
{
    if steps.len() > 0 {
        let rest = steps.drop_first();
        match steps[0].event {
            EventView::Start(_) => {
                lemma_names();
                assert(other_names()[4] == "manifest"@);
                lemma_manifest_rest(rest, items);
                lemma_manifest_counts(rest, items);
                let manifest = manifest_body(rest, items);
                law_every_tag_is_said(manifest.rest, manifest.items, true);
            },
            EventView::Declaration => {
                law_every_tag_is_said(rest, items, found);
            },
            EventView::Comment => {
                law_every_tag_is_said(rest, items, found);
            },
            _ => {},
        }
    }
}

} // verus!
