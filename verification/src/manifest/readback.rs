//! What is read of a manifest that is put into tags.
use vstd::prelude::*;

use crate::manifest::builder::{
    advanced, begun, begun_with, consistent, lemma_less_work, with_item, without_next, BuilderView,
    ProgressView,
};
use crate::manifest::collections::{
    entries_before, entry_at, ordered_paths, remote_named, with_entry,
};
use crate::manifest::elements::{
    default_of, element_fields, field_position, first_missing, fits, no_values, read_element,
    read_fields, remote_of, Element, FieldView, FieldsView,
};
use crate::manifest::parser::{
    document_body, element_item, element_slot, manifest_body, manifest_element, project_body,
    warnings_of, Context, FileView, ItemView, ParseErrorView, ReadView, Slot,
};
use crate::manifest::serializer::{
    boolean_text, default_attributes, default_lines, groups_text,
    hooks_attributes, hooks_lines, law_project_read_back, law_values_read_back, manifest_lines,
    number_text, operation_lines, operations_lines, option_text, project_attributes,
    project_lines, projects_lines, remote_attributes, remotes_lines, serialized, server_lines,
    written_values,
};
use crate::manifest::{
    empty_manifest, project_path, DefaultView, FileOperationView, ManifestView, ProjectView, RemoteView, RepoHooksView,
    SuperProjectView,
};
use crate::markup::{
    is_plain_name, literal_tags, literal_values, nested, pairs_text, plain_keys,
    plain_tag, plain_tags, tag_lines, tags_text, unquoted_values, Pairs, WrittenTag,
};
use crate::text::text_bytes;
use crate::xml::{
    attributes, begins, decoded_steps, reads_tags, tag_events, tag_of, EventView, StepView, TagAttributeView,
    TagView,
};

verus! {

/// A key and its value, where there is one.
pub open spec fn pair(key: Seq<char>, value: Option<Seq<char>>) -> Pairs {
    match value {
        Some(value) => seq![(key, value)],
        None => Seq::empty(),
    }
}

/// The keys and values of a remote.
pub open spec fn remote_pairs(remote: RemoteView) -> Pairs {
    pair("name"@, Some(remote.name)) + (pair("fetch"@, Some(remote.fetch)) + (pair(
        "alias"@,
        remote.alias,
    ) + (pair("review"@, remote.review) + pair("revision"@, remote.revision))))
}

/// The keys and values of the default.
pub open spec fn default_pairs(default: DefaultView) -> Pairs {
    pair("revision"@, default.revision) + (pair("remote"@, default.remote) + (pair(
        "sync-j"@,
        number_text(default.sync_j),
    ) + pair("sync-c"@, boolean_text(default.sync_c))))
}

/// The keys and values of the superproject.
pub open spec fn superproject_pairs(superproject: SuperProjectView) -> Pairs {
    pair("name"@, Some(superproject.name)) + pair("remote"@, Some(superproject.remote))
}

/// The keys and values of the hooks.
pub open spec fn hooks_pairs(hooks: RepoHooksView) -> Pairs {
    pair("in-project"@, hooks.in_project) + pair("enabled-list"@, hooks.enabled_list)
}

/// The keys and values of a project.
pub open spec fn project_pairs(project: ProjectView) -> Pairs {
    pair("name"@, Some(project.name)) + (pair("path"@, project.path) + (pair(
        "remote"@,
        project.remote,
    ) + (pair("revision"@, project.revision) + (pair("dest-branch"@, project.dest_branch) + (pair(
        "sync-c"@,
        boolean_text(project.sync_c),
    ) + (pair("clone-depth"@, number_text(project.clone_depth)) + pair(
        "groups"@,
        groups_text(project.groups),
    )))))))
}

/// The keys and values of a file operation.
pub open spec fn operation_pairs(src: Seq<char>, dst: Seq<char>) -> Pairs {
    pair("src"@, Some(src)) + pair("dest"@, Some(dst))
}

/// Texts with the same bytes are the same.
pub proof fn lemma_bytes_tell(a: Seq<char>, b: Seq<char>)
    requires
        a != b,
    ensures
        text_bytes(a) != text_bytes(b),
{
    vstd::utf8::encode_utf8_decode_utf8(a);
    vstd::utf8::encode_utf8_decode_utf8(b);
}

/// A field is found at its position.
proof fn lemma_field_position(fields: Seq<FieldView>, key: Seq<char>, i: int)
    requires
        0 <= i < fields.len(),
        fields[i].name == key,
        forall|j: int| 0 <= j < i ==> (#[trigger] fields[j]).name != key,
    ensures
        field_position(fields, text_bytes(key)) == i,
    decreases i,
{
    if i > 0 {
        lemma_bytes_tell(fields[0].name, key);
        let rest = fields.drop_first();
        assert forall|j: int| 0 <= j < i - 1 implies (#[trigger] rest[j]).name != key by {
            assert(rest[j] == fields[j + 1]);
        }
        lemma_field_position(rest, key, i - 1);
    }
}

/// Nothing that is required is missing.
proof fn lemma_none_missing(fields: Seq<FieldView>, values: Seq<Option<Seq<char>>>)
    requires
        fields.len() == values.len(),
        forall|i: int| 0 <= i < fields.len() && (#[trigger] fields[i]).required ==> values[i] is Some,
    ensures
        first_missing(fields, values) is None,
    decreases fields.len(),
{
    if fields.len() > 0 {
        let fs = fields.drop_first();
        let vs = values.drop_first();
        assert forall|i: int| 0 <= i < fs.len() && (#[trigger] fs[i]).required implies vs[
            i
        ] is Some by {
            assert(fs[i] == fields[i + 1]);
            assert(vs[i] == values[i + 1]);
        }
        lemma_none_missing(fs, vs);
    }
}

/// A pair is read into its field.
proof fn lemma_read_pair(
    key: Seq<char>,
    value: Option<Seq<char>>,
    rest: Pairs,
    fields: Seq<FieldView>,
    values: Seq<Option<Seq<char>>>,
    i: int,
)
    requires
        0 <= i < fields.len(),
        values.len() == fields.len(),
        fields[i].name == key,
        forall|j: int| 0 <= j < i ==> (#[trigger] fields[j]).name != key,
        !(fields[i].kind is Ignored),
        values[i] is None,
        value matches Some(text) ==> fits(fields[i].kind, text),
    ensures
        read_fields(attributes(pair(key, value) + rest), fields, values, Seq::empty())
            == read_fields(attributes(rest), fields, values.update(i, value), Seq::empty()),
{
    match value {
        Some(text) => {
            lemma_field_position(fields, key, i);
            let all = attributes(pair(key, value) + rest);
            assert(all[0] == TagAttributeView::Pair { key: text_bytes(key), text: Ok(text) });
            assert(all.drop_first() =~= attributes(rest));
        },
        None => {
            assert(pair(key, value) + rest =~= rest);
            assert(values.update(i, value) =~= values);
        },
    }
}

/// Nothing is left to read.
proof fn lemma_read_end(fields: Seq<FieldView>, values: Seq<Option<Seq<char>>>)
    requires
        fields.len() == values.len(),
        forall|i: int| 0 <= i < fields.len() && (#[trigger] fields[i]).required ==> values[i] is Some,
    ensures
        read_fields(attributes(Seq::empty()), fields, values, Seq::empty()) == (FieldsView {
            values,
            unknown: Seq::empty(),
            error: None,
        }),
{
    lemma_none_missing(fields, values);
    assert(attributes(Seq::empty()) =~= Seq::empty());
}

/// What is read where nothing is odd and nothing is missing.
pub open spec fn read_as(values: Seq<Option<Seq<char>>>) -> FieldsView {
    FieldsView { values, unknown: Seq::empty(), error: None }
}

/// The names of the fields of a project tell them apart.
proof fn lemma_project_names()
    ensures
        ({
            let fields = element_fields(Element::Project);
            forall|i: int, j: int|
                0 <= i < j < fields.len() ==> (#[trigger] fields[i]).name != (
                #[trigger] fields[j]).name
        }),
{
    reveal_strlit("name");
    reveal_strlit("path");
    reveal_strlit("remote");
    reveal_strlit("revision");
    reveal_strlit("dest-branch");
    reveal_strlit("groups");
    reveal_strlit("sync-c");
    reveal_strlit("clone-depth");
    reveal_strlit("upstream");
    let fields = element_fields(Element::Project);
    assert forall|i: int, j: int| 0 <= i < j < fields.len() implies (#[trigger] fields[i]).name != (
    #[trigger] fields[j]).name by {
        assert(fields[i].name[0] != fields[j].name[0] || fields[i].name.len()
            != fields[j].name.len());
    }
}

/// What a project's tag says reads as the project's values.
proof fn lemma_project_tag(project: ProjectView)
    ensures
        read_element(Element::Project, tag_of("project"@, project_pairs(project))) == read_as(
            written_values(project),
        ),
{
    lemma_project_names();
    law_values_read_back(project.clone_depth, project.sync_c);
    let f = element_fields(Element::Project);
    let none: Pairs = Seq::empty();
    let groups = groups_text(project.groups);
    let depth = number_text(project.clone_depth);
    let sync = boolean_text(project.sync_c);
    let p8 = pair("groups"@, groups) + none;
    let p7 = pair("clone-depth"@, depth) + p8;
    let p6 = pair("sync-c"@, sync) + p7;
    let p5 = pair("dest-branch"@, project.dest_branch) + p6;
    let p4 = pair("revision"@, project.revision) + p5;
    let p3 = pair("remote"@, project.remote) + p4;
    let p2 = pair("path"@, project.path) + p3;
    let p1 = pair("name"@, Some(project.name)) + p2;
    assert(p8 =~= pair("groups"@, groups));
    assert(p1 == project_pairs(project));
    let v0 = no_values(f.len());
    let v1 = v0.update(0, Some(project.name));
    let v2 = v1.update(1, project.path);
    let v3 = v2.update(2, project.remote);
    let v4 = v3.update(3, project.revision);
    let v5 = v4.update(4, project.dest_branch);
    let v6 = v5.update(6, sync);
    let v7 = v6.update(7, depth);
    let v8 = v7.update(5, groups);
    lemma_read_pair("name"@, Some(project.name), p2, f, v0, 0);
    lemma_read_pair("path"@, project.path, p3, f, v1, 1);
    lemma_read_pair("remote"@, project.remote, p4, f, v2, 2);
    lemma_read_pair("revision"@, project.revision, p5, f, v3, 3);
    lemma_read_pair("dest-branch"@, project.dest_branch, p6, f, v4, 4);
    lemma_read_pair("sync-c"@, sync, p7, f, v5, 6);
    lemma_read_pair("clone-depth"@, depth, p8, f, v6, 7);
    lemma_read_pair("groups"@, groups, none, f, v7, 5);
    assert(v8 =~= written_values(project));
    lemma_read_end(f, v8);
}

/// What the tag of a remote says reads as the remote.
proof fn lemma_remote_tag(remote: RemoteView)
    ensures
        ({
            let read = read_element(Element::Remote, tag_of("remote"@, remote_pairs(remote)));
            &&& read.unknown == Seq::<Seq<u8>>::empty()
            &&& read.error is None
            &&& remote_of(read.values) == remote
        }),
{
    reveal_strlit("name");
    reveal_strlit("alias");
    reveal_strlit("fetch");
    reveal_strlit("review");
    reveal_strlit("revision");
    assert("alias"@[0] != "fetch"@[0]);
    let f = element_fields(Element::Remote);
    let none: Pairs = Seq::empty();
    let p5 = pair("revision"@, remote.revision) + none;
    let p4 = pair("review"@, remote.review) + p5;
    let p3 = pair("alias"@, remote.alias) + p4;
    let p2 = pair("fetch"@, Some(remote.fetch)) + p3;
    assert(p5 =~= pair("revision"@, remote.revision));
    let v0 = no_values(f.len());
    let v1 = v0.update(0, Some(remote.name));
    let v2 = v1.update(2, Some(remote.fetch));
    let v3 = v2.update(1, remote.alias);
    let v4 = v3.update(3, remote.review);
    let v5 = v4.update(4, remote.revision);
    lemma_read_pair("name"@, Some(remote.name), p2, f, v0, 0);
    lemma_read_pair("fetch"@, Some(remote.fetch), p3, f, v1, 2);
    lemma_read_pair("alias"@, remote.alias, p4, f, v2, 1);
    lemma_read_pair("review"@, remote.review, p5, f, v3, 3);
    lemma_read_pair("revision"@, remote.revision, none, f, v4, 4);
    lemma_read_end(f, v5);
}

/// What the tag of the default says reads as the default.
proof fn lemma_default_tag(default: DefaultView)
    ensures
        ({
            let read = read_element(Element::Default, tag_of("default"@, default_pairs(default)));
            &&& read.unknown == Seq::<Seq<u8>>::empty()
            &&& read.error is None
            &&& default_of(read.values) == default
        }),
{
    reveal_strlit("revision");
    reveal_strlit("remote");
    reveal_strlit("sync-j");
    reveal_strlit("sync-c");
    assert("remote"@[0] != "sync-j"@[0]);
    assert("remote"@[0] != "sync-c"@[0]);
    assert("sync-j"@[5] != "sync-c"@[5]);
    law_values_read_back(default.sync_j, default.sync_c);
    let jobs = number_text(default.sync_j);
    let sync = boolean_text(default.sync_c);
    let f = element_fields(Element::Default);
    let none: Pairs = Seq::empty();
    let p4 = pair("sync-c"@, sync) + none;
    let p3 = pair("sync-j"@, jobs) + p4;
    let p2 = pair("remote"@, default.remote) + p3;
    assert(p4 =~= pair("sync-c"@, sync));
    let v0 = no_values(f.len());
    let v1 = v0.update(0, default.revision);
    let v2 = v1.update(1, default.remote);
    let v3 = v2.update(2, jobs);
    let v4 = v3.update(3, sync);
    lemma_read_pair("revision"@, default.revision, p2, f, v0, 0);
    lemma_read_pair("remote"@, default.remote, p3, f, v1, 1);
    lemma_read_pair("sync-j"@, jobs, p4, f, v2, 2);
    lemma_read_pair("sync-c"@, sync, none, f, v3, 3);
    lemma_read_end(f, v4);
}

/// What a tag with one required field says reads as its value.
proof fn lemma_single_tag(element: Element, name: Seq<char>, key: Seq<char>, value: Seq<char>)
    requires
        element_fields(element).len() == 1,
        element_fields(element)[0].name == key,
        element_fields(element)[0].kind is Text,
    ensures
        read_element(element, tag_of(name, pair(key, Some(value)))) == read_as(seq![Some(value)]),
{
    let f = element_fields(element);
    let none: Pairs = Seq::empty();
    assert(pair(key, Some(value)) + none =~= pair(key, Some(value)));
    let v1 = no_values(1).update(0, Some(value));
    lemma_read_pair(key, Some(value), none, f, no_values(1), 0);
    assert(v1 =~= seq![Some(value)]);
    lemma_read_end(f, v1);
}

/// What a tag with two fields says reads as their values.
proof fn lemma_double_tag(
    element: Element,
    name: Seq<char>,
    key: Seq<char>,
    value: Option<Seq<char>>,
    other_key: Seq<char>,
    other: Option<Seq<char>>,
)
    requires
        element_fields(element).len() == 2,
        element_fields(element)[0].name == key,
        element_fields(element)[0].kind is Text,
        element_fields(element)[0].required ==> value is Some,
        element_fields(element)[1].name == other_key,
        element_fields(element)[1].kind is Text,
        element_fields(element)[1].required ==> other is Some,
        key != other_key,
    ensures
        read_element(element, tag_of(name, pair(key, value) + pair(other_key, other))) == read_as(
            seq![value, other],
        ),
{
    let f = element_fields(element);
    let none: Pairs = Seq::empty();
    let p2 = pair(other_key, other) + none;
    assert(p2 =~= pair(other_key, other));
    let v1 = no_values(2).update(0, value);
    let v2 = v1.update(1, other);
    lemma_read_pair(key, value, p2, f, no_values(2), 0);
    lemma_read_pair(other_key, other, none, f, v1, 1);
    assert(v2 =~= seq![value, other]);
    lemma_read_end(f, v2);
}

/// What the tag of a file operation says reads as the operation.
proof fn lemma_operation_tag(element: Element, name: Seq<char>, src: Seq<char>, dst: Seq<char>)
    requires
        element == Element::CopyFile || element == Element::LinkFile,
    ensures
        read_element(element, tag_of(name, operation_pairs(src, dst))) == read_as(
            seq![Some(src), Some(dst)],
        ),
{
    reveal_strlit("src");
    reveal_strlit("dest");
    lemma_double_tag(element, name, "src"@, Some(src), "dest"@, Some(dst));
}

/// What begins with events and then others goes on with the others after the first.
proof fn lemma_begins(steps: Seq<StepView>, first: Seq<EventView>, others: Seq<EventView>)
    requires
        begins(steps, first + others),
    ensures
        begins(steps, first),
        begins(steps.skip(first.len() as int), others),
{
    let all = first + others;
    assert forall|i: int| 0 <= i < first.len() implies (#[trigger] steps[i]).event == first[i] by {
        assert(all[i] == first[i]);
    }
    let rest = steps.skip(first.len() as int);
    assert forall|i: int| 0 <= i < others.len() implies (#[trigger] rest[i]).event == others[i] by {
        assert(rest[i] == steps[first.len() + i]);
        assert(all[first.len() + i] == others[i]);
    }
}

/// An element without children, where there is one.
pub open spec fn element_event(name: Seq<char>, pairs: Option<Pairs>) -> Seq<EventView> {
    match pairs {
        Some(pairs) => seq![EventView::Empty(tag_of(name, pairs))],
        None => Seq::empty(),
    }
}

/// The remotes as elements.
pub open spec fn remote_events(remotes: Seq<RemoteView>) -> Seq<EventView> {
    remotes.map_values(|r: RemoteView| EventView::Empty(tag_of("remote"@, remote_pairs(r))))
}

/// A file operation as an element.
pub open spec fn operation_event(operation: FileOperationView) -> EventView {
    match operation {
        FileOperationView::LinkFile { src, dst } => EventView::Empty(
            tag_of("linkfile"@, operation_pairs(src, dst)),
        ),
        FileOperationView::CopyFile { src, dst } => EventView::Empty(
            tag_of("copyfile"@, operation_pairs(src, dst)),
        ),
    }
}

/// File operations as elements.
pub open spec fn operation_events(operations: Seq<FileOperationView>) -> Seq<EventView> {
    operations.map_values(|o: FileOperationView| operation_event(o))
}

/// A project as an element with its file operations inside.
pub open spec fn project_events(project: ProjectView) -> Seq<EventView> {
    seq![EventView::Start(tag_of("project"@, project_pairs(project)))] + (operation_events(
        project.file_operations,
    ) + seq![EventView::End])
}

/// The projects as elements.
pub open spec fn projects_events(projects: Seq<(Seq<char>, ProjectView)>) -> Seq<EventView>
    decreases projects.len(),
{
    if projects.len() == 0 {
        Seq::empty()
    } else {
        project_events(projects[0].1) + projects_events(projects.drop_first())
    }
}

/// The items with what an element says, where there is one.
pub open spec fn slot_items(slot: Slot, item: Option<ItemView>) -> Seq<ItemView> {
    match item {
        Some(item) => seq![ItemView::Claim(slot), item],
        None => Seq::empty(),
    }
}

/// What the remotes say.
pub open spec fn remote_items(remotes: Seq<RemoteView>) -> Seq<ItemView> {
    remotes.map_values(|r: RemoteView| ItemView::Remote(r))
}

/// What the projects say.
pub open spec fn project_items(projects: Seq<(Seq<char>, ProjectView)>) -> Seq<ItemView> {
    projects.map_values(|e: (Seq<char>, ProjectView)| ItemView::Project(e.1))
}

/// The names of elements tell them apart.
proof fn lemma_element_names()
    ensures
        manifest_element(text_bytes("remote"@)) == Some(Element::Remote),
        manifest_element(text_bytes("default"@)) == Some(Element::Default),
        manifest_element(text_bytes("manifest-server"@)) == Some(Element::ManifestServer),
        manifest_element(text_bytes("superproject"@)) == Some(Element::SuperProject),
        manifest_element(text_bytes("contactinfo"@)) == Some(Element::ContactInfo),
        manifest_element(text_bytes("repo-hooks"@)) == Some(Element::RepoHooks),
        text_bytes("project"@) != text_bytes("notice"@),
        text_bytes("remote"@) != text_bytes("notice"@),
        text_bytes("remote"@) != text_bytes("project"@),
        text_bytes("linkfile"@) != text_bytes("copyfile"@),
{
    reveal_strlit("include");
    reveal_strlit("project");
    reveal_strlit("remote");
    reveal_strlit("default");
    reveal_strlit("manifest-server");
    reveal_strlit("superproject");
    reveal_strlit("contactinfo");
    reveal_strlit("repo-hooks");
    reveal_strlit("notice");
    reveal_strlit("linkfile");
    reveal_strlit("copyfile");
    let names = seq![
        "include"@,
        "project"@,
        "remote"@,
        "default"@,
        "manifest-server"@,
        "superproject"@,
        "contactinfo"@,
        "repo-hooks"@,
        "notice"@,
        "linkfile"@,
        "copyfile"@,
    ];
    assert forall|i: int, j: int| 0 <= i < j < names.len() implies text_bytes(#[trigger] names[i])
        != text_bytes(#[trigger] names[j]) by {
        assert(names[i][0] != names[j][0] || names[i].len() != names[j].len());
        lemma_bytes_tell(names[i], names[j]);
    }
    assert(names[0] == "include"@ && names[1] == "project"@ && names[2] == "remote"@);
    assert(names[3] == "default"@ && names[4] == "manifest-server"@);
    assert(names[5] == "superproject"@ && names[6] == "contactinfo"@);
    assert(names[7] == "repo-hooks"@ && names[8] == "notice"@);
    assert(names[9] == "linkfile"@ && names[10] == "copyfile"@);
}

/// An element without children is read, and what comes after it.
proof fn lemma_read_element(
    element: Element,
    tag: TagView,
    steps: Seq<StepView>,
    items: Seq<ItemView>,
)
    requires
        steps.len() > 0,
        steps[0].event == EventView::Empty(tag),
        manifest_element(tag.name) == Some(element),
        element != Element::Include,
        read_element(element, tag).unknown == Seq::<Seq<u8>>::empty(),
        read_element(element, tag).error is None,
    ensures
        ({
            let item = element_item(element, read_element(element, tag).values);
            let claimed = match element_slot(element) {
                Some(slot) => items.push(ItemView::Claim(slot)),
                None => items,
            };
            manifest_body(steps, items) == manifest_body(steps.skip(1), claimed.push(item))
        }),
{
    let claimed = match element_slot(element) {
        Some(slot) => items.push(ItemView::Claim(slot)),
        None => items,
    };
    assert(claimed + warnings_of(element, Seq::empty()) =~= claimed);
    assert(steps.drop_first() =~= steps.skip(1));
}

/// The remotes are read, and what comes after them.
proof fn lemma_read_remotes(
    remotes: Seq<RemoteView>,
    steps: Seq<StepView>,
    items: Seq<ItemView>,
)
    requires
        begins(steps, remote_events(remotes)),
    ensures
        manifest_body(steps, items) == manifest_body(
            steps.skip(remotes.len() as int),
            items + remote_items(remotes),
        ),
    decreases remotes.len(),
{
    if remotes.len() == 0 {
        assert(steps.skip(0) =~= steps);
        assert(items + remote_items(remotes) =~= items);
    } else {
        let remote = remotes[0];
        let rest = remotes.drop_first();
        assert(remote_events(remotes) =~= seq![remote_events(remotes)[0]] + remote_events(rest));
        lemma_begins(steps, seq![remote_events(remotes)[0]], remote_events(rest));
        lemma_element_names();
        lemma_remote_tag(remote);
        assert(steps[0].event == remote_events(remotes)[0]);
        lemma_read_element(
            Element::Remote,
            tag_of("remote"@, remote_pairs(remote)),
            steps,
            items,
        );
        let more = items.push(ItemView::Remote(remote));
        lemma_read_remotes(rest, steps.skip(1), more);
        assert(steps.skip(1).skip(rest.len() as int) =~= steps.skip(remotes.len() as int));
        assert(more + remote_items(rest) =~= items + remote_items(remotes));
    }
}

/// An element that can be there once is read, where it is there, and what comes after it.
proof fn lemma_read_slot(
    element: Element,
    slot: Slot,
    name: Seq<char>,
    pairs: Option<Pairs>,
    item: Option<ItemView>,
    steps: Seq<StepView>,
    items: Seq<ItemView>,
)
    requires
        begins(steps, element_event(name, pairs)),
        element_slot(element) == Some(slot),
        manifest_element(text_bytes(name)) == Some(element),
        pairs is Some == item is Some,
        pairs matches Some(p) ==> {
            let read = read_element(element, tag_of(name, p));
            &&& read.unknown == Seq::<Seq<u8>>::empty()
            &&& read.error is None
            &&& element_item(element, read.values) == item->0
        },
    ensures
        manifest_body(steps, items) == manifest_body(
            steps.skip(element_event(name, pairs).len() as int),
            items + slot_items(slot, item),
        ),
{
    match pairs {
        Some(p) => {
            assert(steps[0].event == element_event(name, pairs)[0]);
            lemma_read_element(element, tag_of(name, p), steps, items);
            assert(items.push(ItemView::Claim(slot)).push(item->0) =~= items + slot_items(
                slot,
                item,
            ));
        },
        None => {
            assert(steps.skip(0) =~= steps);
            assert(items + slot_items(slot, item) =~= items);
        },
    }
}

/// File operations are read, and what comes after them.
proof fn lemma_read_operations(
    operations: Seq<FileOperationView>,
    steps: Seq<StepView>,
    items: Seq<ItemView>,
    before: Seq<FileOperationView>,
)
    requires
        begins(steps, operation_events(operations)),
    ensures
        project_body(steps, items, before) == project_body(
            steps.skip(operations.len() as int),
            items,
            before + operations,
        ),
    decreases operations.len(),
{
    if operations.len() == 0 {
        assert(steps.skip(0) =~= steps);
        assert(before + operations =~= before);
    } else {
        let operation = operations[0];
        let rest = operations.drop_first();
        let first = operation_events(operations)[0];
        assert(operation_events(operations) =~= seq![first] + operation_events(rest));
        lemma_begins(steps, seq![first], operation_events(rest));
        lemma_element_names();
        assert(steps[0].event == first);
        match operation {
            FileOperationView::LinkFile { src, dst } => {
                lemma_operation_tag(Element::LinkFile, "linkfile"@, src, dst);
                assert(items + warnings_of(Element::LinkFile, Seq::empty()) =~= items);
            },
            FileOperationView::CopyFile { src, dst } => {
                lemma_operation_tag(Element::CopyFile, "copyfile"@, src, dst);
                assert(items + warnings_of(Element::CopyFile, Seq::empty()) =~= items);
            },
        }
        assert(steps.drop_first() =~= steps.skip(1));
        lemma_read_operations(rest, steps.skip(1), items, before.push(operation));
        assert(steps.skip(1).skip(rest.len() as int) =~= steps.skip(operations.len() as int));
        assert(before.push(operation) + rest =~= before + operations);
    }
}

/// What can be told of a project in tags: its groups, if it names any, are not an empty list and
/// hold no comma, and there are no annotations.
pub open spec fn tellable(project: ProjectView) -> bool {
    &&& project.annotations.len() == 0
    &&& project.groups matches Some(groups) ==> groups.len() > 0 && forall|i: int|
        0 <= i < groups.len() ==> !(#[trigger] groups[i]).contains(',')
}

/// A project is read, and what comes after it.
proof fn lemma_read_project(project: ProjectView, steps: Seq<StepView>, items: Seq<ItemView>)
    requires
        begins(steps, project_events(project)),
        tellable(project),
    ensures
        manifest_body(steps, items) == manifest_body(
            steps.skip(project_events(project).len() as int),
            items.push(ItemView::Project(project)),
        ),
{
    let tag = tag_of("project"@, project_pairs(project));
    let inside = operation_events(project.file_operations);
    lemma_begins(steps, seq![EventView::Start(tag)], inside + seq![EventView::End]);
    let rest = steps.skip(1);
    assert(steps.drop_first() =~= rest);
    lemma_begins(rest, inside, seq![EventView::End]);
    lemma_element_names();
    lemma_project_tag(project);
    law_project_read_back(project);
    assert(steps[0].event == seq![EventView::Start(tag)][0]);
    assert(items + warnings_of(Element::Project, Seq::empty()) =~= items);
    lemma_read_operations(project.file_operations, rest, items, Seq::empty());
    let end = rest.skip(inside.len() as int);
    assert(end[0].event == seq![EventView::End][0]);
    assert(Seq::<FileOperationView>::empty() + project.file_operations
        =~= project.file_operations);
    assert(end.drop_first() =~= steps.skip(project_events(project).len() as int));
}

/// The projects are read, and what comes after them.
proof fn lemma_read_projects(
    projects: Seq<(Seq<char>, ProjectView)>,
    steps: Seq<StepView>,
    items: Seq<ItemView>,
)
    requires
        begins(steps, projects_events(projects)),
        forall|i: int| 0 <= i < projects.len() ==> tellable((#[trigger] projects[i]).1),
    ensures
        manifest_body(steps, items) == manifest_body(
            steps.skip(projects_events(projects).len() as int),
            items + project_items(projects),
        ),
    decreases projects.len(),
{
    if projects.len() == 0 {
        assert(steps.skip(0) =~= steps);
        assert(items + project_items(projects) =~= items);
    } else {
        let project = projects[0].1;
        let rest = projects.drop_first();
        let n = project_events(project).len() as int;
        lemma_begins(steps, project_events(project), projects_events(rest));
        lemma_read_project(project, steps, items);
        let more = items.push(ItemView::Project(project));
        assert forall|i: int| 0 <= i < rest.len() implies tellable((#[trigger] rest[i]).1) by {
            assert(rest[i] == projects[i + 1]);
        }
        lemma_read_projects(rest, steps.skip(n), more);
        assert(steps.skip(n).skip(projects_events(rest).len() as int) =~= steps.skip(
            projects_events(projects).len() as int,
        ));
        assert(more + project_items(rest) =~= items + project_items(projects));
    }
}

/// The default as an element, where there is one.
pub open spec fn default_events(value: Option<DefaultView>) -> Seq<EventView> {
    element_event(
        "default"@,
        match value {
            Some(v) => Some(default_pairs(v)),
            None => None,
        },
    )
}

/// What the default says, where there is one.
pub open spec fn default_items(value: Option<DefaultView>) -> Seq<ItemView> {
    slot_items(
        Slot::Default,
        match value {
            Some(v) => Some(ItemView::Default(v)),
            None => None,
        },
    )
}

/// The default is read, where there is one, and what comes after it.
proof fn lemma_read_default(value: Option<DefaultView>, steps: Seq<StepView>, items: Seq<ItemView>)
    requires
        begins(steps, default_events(value)),
    ensures
        manifest_body(steps, items) == manifest_body(
            steps.skip(default_events(value).len() as int),
            items + default_items(value),
        ),
{
    lemma_element_names();
    let pairs: Option<Pairs> = match value {
        Some(v) => Some(default_pairs(v)),
        None => None,
    };
    let item: Option<ItemView> = match value {
        Some(v) => Some(ItemView::Default(v)),
        None => None,
    };
    match value {
        Some(v) => {
            lemma_default_tag(v);
        },
        None => {},
    }
    lemma_read_slot(Element::Default, Slot::Default, "default"@, pairs, item, steps, items);
}

/// The default can be said to a manifest that has none.
proof fn lemma_default_said(manifest: ManifestView, value: Option<DefaultView>)
    requires
        manifest.default is None,
    ensures
        said(manifest, default_items(value)) == Some(ManifestView { default: value, ..manifest }),
{
    match value {
        Some(v) => {
            let items = default_items(value);
            assert(items.drop_first() =~= seq![ItemView::Default(v)]);
            assert(items.drop_first().drop_first() =~= Seq::empty());
            reveal_with_fuel(said, 3);
        },
        None => {
            assert(default_items(value) =~= Seq::empty());
        },
    }
}

/// The manifest server as an element, where there is one.
pub open spec fn server_events(value: Option<Seq<char>>) -> Seq<EventView> {
    element_event(
        "manifest-server"@,
        match value {
            Some(v) => Some(pair("url"@, Some(v))),
            None => None,
        },
    )
}

/// What the manifest server says, where there is one.
pub open spec fn server_items(value: Option<Seq<char>>) -> Seq<ItemView> {
    slot_items(
        Slot::ManifestServer,
        match value {
            Some(v) => Some(ItemView::ManifestServer(v)),
            None => None,
        },
    )
}

/// The manifest server is read, where there is one, and what comes after it.
proof fn lemma_read_server(value: Option<Seq<char>>, steps: Seq<StepView>, items: Seq<ItemView>)
    requires
        begins(steps, server_events(value)),
    ensures
        manifest_body(steps, items) == manifest_body(
            steps.skip(server_events(value).len() as int),
            items + server_items(value),
        ),
{
    lemma_element_names();
    let pairs: Option<Pairs> = match value {
        Some(v) => Some(pair("url"@, Some(v))),
        None => None,
    };
    let item: Option<ItemView> = match value {
        Some(v) => Some(ItemView::ManifestServer(v)),
        None => None,
    };
    match value {
        Some(v) => {
            lemma_single_tag(Element::ManifestServer, "manifest-server"@, "url"@, v);
        },
        None => {},
    }
    lemma_read_slot(Element::ManifestServer, Slot::ManifestServer, "manifest-server"@, pairs, item, steps, items);
}

/// The manifest server can be said to a manifest that has none.
proof fn lemma_server_said(manifest: ManifestView, value: Option<Seq<char>>)
    requires
        manifest.manifest_server is None,
    ensures
        said(manifest, server_items(value)) == Some(ManifestView { manifest_server: value, ..manifest }),
{
    match value {
        Some(v) => {
            let items = server_items(value);
            assert(items.drop_first() =~= seq![ItemView::ManifestServer(v)]);
            assert(items.drop_first().drop_first() =~= Seq::empty());
            reveal_with_fuel(said, 3);
        },
        None => {
            assert(server_items(value) =~= Seq::empty());
        },
    }
}

/// The superproject as an element, where there is one.
pub open spec fn superproject_events(value: Option<SuperProjectView>) -> Seq<EventView> {
    element_event(
        "superproject"@,
        match value {
            Some(v) => Some(superproject_pairs(v)),
            None => None,
        },
    )
}

/// What the superproject says, where there is one.
pub open spec fn superproject_items(value: Option<SuperProjectView>) -> Seq<ItemView> {
    slot_items(
        Slot::SuperProject,
        match value {
            Some(v) => Some(ItemView::SuperProject(v)),
            None => None,
        },
    )
}

/// The superproject is read, where there is one, and what comes after it.
proof fn lemma_read_superproject(value: Option<SuperProjectView>, steps: Seq<StepView>, items: Seq<ItemView>)
    requires
        begins(steps, superproject_events(value)),
    ensures
        manifest_body(steps, items) == manifest_body(
            steps.skip(superproject_events(value).len() as int),
            items + superproject_items(value),
        ),
{
    lemma_element_names();
    let pairs: Option<Pairs> = match value {
        Some(v) => Some(superproject_pairs(v)),
        None => None,
    };
    let item: Option<ItemView> = match value {
        Some(v) => Some(ItemView::SuperProject(v)),
        None => None,
    };
    match value {
        Some(v) => {
            reveal_strlit("name");
            reveal_strlit("remote");
            lemma_double_tag(
                Element::SuperProject,
                "superproject"@,
                "name"@,
                Some(v.name),
                "remote"@,
                Some(v.remote),
            );
        },
        None => {},
    }
    lemma_read_slot(Element::SuperProject, Slot::SuperProject, "superproject"@, pairs, item, steps, items);
}

/// The superproject can be said to a manifest that has none.
proof fn lemma_superproject_said(manifest: ManifestView, value: Option<SuperProjectView>)
    requires
        manifest.superproject is None,
    ensures
        said(manifest, superproject_items(value)) == Some(ManifestView { superproject: value, ..manifest }),
{
    match value {
        Some(v) => {
            let items = superproject_items(value);
            assert(items.drop_first() =~= seq![ItemView::SuperProject(v)]);
            assert(items.drop_first().drop_first() =~= Seq::empty());
            reveal_with_fuel(said, 3);
        },
        None => {
            assert(superproject_items(value) =~= Seq::empty());
        },
    }
}

/// The contact as an element, where there is one.
pub open spec fn contact_events(value: Option<Seq<char>>) -> Seq<EventView> {
    element_event(
        "contactinfo"@,
        match value {
            Some(v) => Some(pair("bugurl"@, Some(v))),
            None => None,
        },
    )
}

/// What the contact says, where there is one.
pub open spec fn contact_items(value: Option<Seq<char>>) -> Seq<ItemView> {
    slot_items(
        Slot::ContactInfo,
        match value {
            Some(v) => Some(ItemView::ContactInfo(v)),
            None => None,
        },
    )
}

/// The contact is read, where there is one, and what comes after it.
proof fn lemma_read_contact(value: Option<Seq<char>>, steps: Seq<StepView>, items: Seq<ItemView>)
    requires
        begins(steps, contact_events(value)),
    ensures
        manifest_body(steps, items) == manifest_body(
            steps.skip(contact_events(value).len() as int),
            items + contact_items(value),
        ),
{
    lemma_element_names();
    let pairs: Option<Pairs> = match value {
        Some(v) => Some(pair("bugurl"@, Some(v))),
        None => None,
    };
    let item: Option<ItemView> = match value {
        Some(v) => Some(ItemView::ContactInfo(v)),
        None => None,
    };
    match value {
        Some(v) => {
            lemma_single_tag(Element::ContactInfo, "contactinfo"@, "bugurl"@, v);
        },
        None => {},
    }
    lemma_read_slot(Element::ContactInfo, Slot::ContactInfo, "contactinfo"@, pairs, item, steps, items);
}

/// The contact can be said to a manifest that has none.
proof fn lemma_contact_said(manifest: ManifestView, value: Option<Seq<char>>)
    requires
        manifest.contactinfo is None,
    ensures
        said(manifest, contact_items(value)) == Some(ManifestView { contactinfo: value, ..manifest }),
{
    match value {
        Some(v) => {
            let items = contact_items(value);
            assert(items.drop_first() =~= seq![ItemView::ContactInfo(v)]);
            assert(items.drop_first().drop_first() =~= Seq::empty());
            reveal_with_fuel(said, 3);
        },
        None => {
            assert(contact_items(value) =~= Seq::empty());
        },
    }
}

/// The hooks as an element, where there is one.
pub open spec fn hooks_events(value: Option<RepoHooksView>) -> Seq<EventView> {
    element_event(
        "repo-hooks"@,
        match value {
            Some(v) => Some(hooks_pairs(v)),
            None => None,
        },
    )
}

/// What the hooks says, where there is one.
pub open spec fn hooks_items(value: Option<RepoHooksView>) -> Seq<ItemView> {
    slot_items(
        Slot::RepoHooks,
        match value {
            Some(v) => Some(ItemView::RepoHooks(v)),
            None => None,
        },
    )
}

/// The hooks is read, where there is one, and what comes after it.
proof fn lemma_read_hooks(value: Option<RepoHooksView>, steps: Seq<StepView>, items: Seq<ItemView>)
    requires
        begins(steps, hooks_events(value)),
    ensures
        manifest_body(steps, items) == manifest_body(
            steps.skip(hooks_events(value).len() as int),
            items + hooks_items(value),
        ),
{
    lemma_element_names();
    let pairs: Option<Pairs> = match value {
        Some(v) => Some(hooks_pairs(v)),
        None => None,
    };
    let item: Option<ItemView> = match value {
        Some(v) => Some(ItemView::RepoHooks(v)),
        None => None,
    };
    match value {
        Some(v) => {
            reveal_strlit("in-project");
            reveal_strlit("enabled-list");
            lemma_double_tag(
                Element::RepoHooks,
                "repo-hooks"@,
                "in-project"@,
                v.in_project,
                "enabled-list"@,
                v.enabled_list,
            );
        },
        None => {},
    }
    lemma_read_slot(Element::RepoHooks, Slot::RepoHooks, "repo-hooks"@, pairs, item, steps, items);
}

/// The hooks can be said to a manifest that has none.
proof fn lemma_hooks_said(manifest: ManifestView, value: Option<RepoHooksView>)
    requires
        manifest.repo_hooks is None,
    ensures
        said(manifest, hooks_items(value)) == Some(ManifestView { repo_hooks: value, ..manifest }),
{
    match value {
        Some(v) => {
            let items = hooks_items(value);
            assert(items.drop_first() =~= seq![ItemView::RepoHooks(v)]);
            assert(items.drop_first().drop_first() =~= Seq::empty());
            reveal_with_fuel(said, 3);
        },
        None => {
            assert(hooks_items(value) =~= Seq::empty());
        },
    }
}

/// What a manifest can be given only once, as elements.
pub open spec fn slots_events(manifest: ManifestView) -> Seq<EventView> {
    default_events(manifest.default) + (server_events(manifest.manifest_server) + (
    superproject_events(manifest.superproject) + (contact_events(manifest.contactinfo)
        + hooks_events(manifest.repo_hooks))))
}

/// What is said of what a manifest can be given only once.
pub open spec fn slots_items(manifest: ManifestView) -> Seq<ItemView> {
    default_items(manifest.default) + (server_items(manifest.manifest_server) + (
    superproject_items(manifest.superproject) + (contact_items(manifest.contactinfo)
        + hooks_items(manifest.repo_hooks))))
}

/// A manifest as a document of elements.
pub open spec fn described(manifest: ManifestView) -> Seq<EventView> {
    seq![EventView::Start(tag_of("manifest"@, Seq::empty()))] + (remote_events(manifest.remotes)
        + (slots_events(manifest) + (projects_events(manifest.projects) + seq![
        EventView::End,
        EventView::Finish,
    ])))
}

/// All that a manifest says.
pub open spec fn manifest_items(manifest: ManifestView) -> Seq<ItemView> {
    remote_items(manifest.remotes) + (slots_items(manifest) + project_items(manifest.projects))
}

/// Wherever the events stand inside `<manifest>`, they add the items and nothing else.
#[verifier::opaque]
spec fn tells(events: Seq<EventView>, added: Seq<ItemView>) -> bool {
    forall|steps: Seq<StepView>, items: Seq<ItemView>|
        begins(steps, events) ==> #[trigger] manifest_body(steps, items) == manifest_body(
            steps.skip(events.len() as int),
            items + added,
        )
}

/// What events tell at one place.
proof fn lemma_told(
    events: Seq<EventView>,
    added: Seq<ItemView>,
    steps: Seq<StepView>,
    items: Seq<ItemView>,
)
    requires
        tells(events, added),
        begins(steps, events),
    ensures
        manifest_body(steps, items) == manifest_body(
            steps.skip(events.len() as int),
            items + added,
        ),
{
    reveal(tells);
}

/// Events tell one after another what each of them tells.
proof fn lemma_tells_both(
    first: Seq<EventView>,
    first_items: Seq<ItemView>,
    others: Seq<EventView>,
    other_items: Seq<ItemView>,
)
    requires
        tells(first, first_items),
        tells(others, other_items),
    ensures
        tells(first + others, first_items + other_items),
{
    assert forall|steps: Seq<StepView>, items: Seq<ItemView>|
        begins(steps, first + others) implies #[trigger] manifest_body(steps, items)
        == manifest_body(
        steps.skip((first + others).len() as int),
        items + (first_items + other_items),
    ) by {
        lemma_begins(steps, first, others);
        let rest = steps.skip(first.len() as int);
        lemma_told(first, first_items, steps, items);
        lemma_told(others, other_items, rest, items + first_items);
        assert(rest.skip(others.len() as int) =~= steps.skip((first + others).len() as int));
        assert(items + first_items + other_items =~= items + (first_items + other_items));
    }
    reveal(tells);
}

/// What a manifest can be given only once is told by its elements.
proof fn lemma_slots_told(manifest: ManifestView)
    ensures
        tells(slots_events(manifest), slots_items(manifest)),
{
    let e1 = default_events(manifest.default);
    let e2 = server_events(manifest.manifest_server);
    let e3 = superproject_events(manifest.superproject);
    let e4 = contact_events(manifest.contactinfo);
    let e5 = hooks_events(manifest.repo_hooks);
    let i1 = default_items(manifest.default);
    let i2 = server_items(manifest.manifest_server);
    let i3 = superproject_items(manifest.superproject);
    let i4 = contact_items(manifest.contactinfo);
    let i5 = hooks_items(manifest.repo_hooks);
    assert(tells(e1, i1)) by {
        reveal(tells);
        assert forall|steps: Seq<StepView>, items: Seq<ItemView>|
            begins(steps, e1) implies #[trigger] manifest_body(steps, items) == manifest_body(
            steps.skip(e1.len() as int),
            items + i1,
        ) by {
            lemma_read_default(manifest.default, steps, items);
        }
    }
    assert(tells(e2, i2)) by {
        reveal(tells);
        assert forall|steps: Seq<StepView>, items: Seq<ItemView>|
            begins(steps, e2) implies #[trigger] manifest_body(steps, items) == manifest_body(
            steps.skip(e2.len() as int),
            items + i2,
        ) by {
            lemma_read_server(manifest.manifest_server, steps, items);
        }
    }
    assert(tells(e3, i3)) by {
        reveal(tells);
        assert forall|steps: Seq<StepView>, items: Seq<ItemView>|
            begins(steps, e3) implies #[trigger] manifest_body(steps, items) == manifest_body(
            steps.skip(e3.len() as int),
            items + i3,
        ) by {
            lemma_read_superproject(manifest.superproject, steps, items);
        }
    }
    assert(tells(e4, i4)) by {
        reveal(tells);
        assert forall|steps: Seq<StepView>, items: Seq<ItemView>|
            begins(steps, e4) implies #[trigger] manifest_body(steps, items) == manifest_body(
            steps.skip(e4.len() as int),
            items + i4,
        ) by {
            lemma_read_contact(manifest.contactinfo, steps, items);
        }
    }
    assert(tells(e5, i5)) by {
        reveal(tells);
        assert forall|steps: Seq<StepView>, items: Seq<ItemView>|
            begins(steps, e5) implies #[trigger] manifest_body(steps, items) == manifest_body(
            steps.skip(e5.len() as int),
            items + i5,
        ) by {
            lemma_read_hooks(manifest.repo_hooks, steps, items);
        }
    }
    lemma_tells_both(e4, i4, e5, i5);
    lemma_tells_both(e3, i3, e4 + e5, i4 + i5);
    lemma_tells_both(e2, i2, e3 + (e4 + e5), i3 + (i4 + i5));
    lemma_tells_both(e1, i1, e2 + (e3 + (e4 + e5)), i2 + (i3 + (i4 + i5)));
}

/// All that a manifest says is told by its elements.
proof fn lemma_manifest_told(manifest: ManifestView)
    requires
        forall|i: int|
            0 <= i < manifest.projects.len() ==> tellable((#[trigger] manifest.projects[i]).1),
    ensures
        tells(
            remote_events(manifest.remotes) + (slots_events(manifest) + projects_events(
                manifest.projects,
            )),
            manifest_items(manifest),
        ),
{
    let e1 = remote_events(manifest.remotes);
    let e2 = slots_events(manifest);
    let e3 = projects_events(manifest.projects);
    let i1 = remote_items(manifest.remotes);
    let i2 = slots_items(manifest);
    let i3 = project_items(manifest.projects);
    assert(tells(e1, i1)) by {
        reveal(tells);
        assert forall|steps: Seq<StepView>, items: Seq<ItemView>|
            begins(steps, e1) implies #[trigger] manifest_body(steps, items) == manifest_body(
            steps.skip(e1.len() as int),
            items + i1,
        ) by {
            lemma_read_remotes(manifest.remotes, steps, items);
        }
    }
    lemma_slots_told(manifest);
    assert(tells(e3, i3)) by {
        reveal(tells);
        assert forall|steps: Seq<StepView>, items: Seq<ItemView>|
            begins(steps, e3) implies #[trigger] manifest_body(steps, items) == manifest_body(
            steps.skip(e3.len() as int),
            items + i3,
        ) by {
            lemma_read_projects(manifest.projects, steps, items);
        }
    }
    lemma_tells_both(e2, i2, e3, i3);
    lemma_tells_both(e1, i1, e2 + e3, i2 + i3);
}

/// A closing tag ends the manifest.
proof fn lemma_manifest_ends(steps: Seq<StepView>, items: Seq<ItemView>)
    requires
        steps.len() > 0,
        steps[0].event == EventView::End,
    ensures
        manifest_body(steps, items) == (ReadView { items, rest: steps.drop_first(), error: None }),
{
}

/// A document with one manifest says what the manifest says.
proof fn lemma_document_reads(steps: Seq<StepView>, inside: ReadView)
    requires
        steps.len() > 0,
        steps[0].event == EventView::Start(tag_of("manifest"@, Seq::empty())),
        manifest_body(steps.drop_first(), Seq::empty()) == inside,
        inside.error is None,
        inside.rest.len() > 0,
        inside.rest[0].event == EventView::Finish,
    ensures
        document_body(steps, Seq::empty(), false) == (FileView { items: inside.items, error: None }),
{
    assert(document_body(inside.rest, inside.items, true) == (FileView {
        items: inside.items,
        error: None,
    }));
}

/// A document of elements says what the manifest says, and nothing else.
proof fn lemma_read_described(manifest: ManifestView, steps: Seq<StepView>)
    requires
        begins(steps, described(manifest)),
        forall|i: int|
            0 <= i < manifest.projects.len() ==> tellable((#[trigger] manifest.projects[i]).1),
    ensures
        document_body(steps, Seq::empty(), false) == (FileView {
            items: manifest_items(manifest),
            error: None,
        }),
{
    let start = seq![EventView::Start(tag_of("manifest"@, Seq::empty()))];
    let end = seq![EventView::End, EventView::Finish];
    let none: Seq<ItemView> = Seq::empty();
    let items = manifest_items(manifest);
    let inside = remote_events(manifest.remotes) + (slots_events(manifest) + projects_events(
        manifest.projects,
    ));
    assert(described(manifest) =~= start + (inside + end));
    let body = steps.skip(1);
    lemma_begins(steps, start, inside + end);
    lemma_begins(body, inside, end);
    assert(steps[0].event == start[0]);
    assert(steps.drop_first() =~= body);
    lemma_manifest_told(manifest);
    lemma_told(inside, items, body, none);
    assert(none + items =~= items);
    let last = body.skip(inside.len() as int);
    assert(last[0].event == end[0]);
    assert(last[1].event == end[1]);
    lemma_manifest_ends(last, items);
    assert(last.drop_first()[0] == last[1]);
    lemma_document_reads(steps, ReadView { items, rest: last.drop_first(), error: None });
}

/// The manifest after all has been said, or why something cannot be said.
pub open spec fn said(manifest: ManifestView, items: Seq<ItemView>) -> Option<ManifestView>
    decreases items.len(),
{
    if items.len() == 0 {
        Some(manifest)
    } else {
        match with_item(manifest, items[0]) {
            Ok(after) => said(after, items.drop_first()),
            Err(_) => None,
        }
    }
}

/// What is said one after another is what a builder makes of a file.
proof fn lemma_builder_says(manifest: ManifestView, items: Seq<ItemView>)
    requires
        said(manifest, items) is Some,
        forall|i: int|
            0 <= i < items.len() ==> !(#[trigger] items[i] is Include) && !(items[i] is Warning),
    ensures
        ({
            let builder = BuilderView {
                manifest,
                warnings: Seq::empty(),
                pending: seq![FileView { items, error: None }],
            };
            let done = BuilderView {
                manifest: said(manifest, items)->0,
                warnings: Seq::empty(),
                pending: Seq::empty(),
            };
            advanced(builder) == (done, ProgressView::Done)
        }),
    decreases items.len(),
{
    let pending = seq![FileView { items, error: None }];
    let builder = BuilderView { manifest, warnings: Seq::empty(), pending };
    lemma_less_work(pending);
    if items.len() == 0 {
        let left = BuilderView { pending: pending.drop_last(), ..builder };
        assert(left.pending =~= Seq::empty());
        assert(advanced(builder) == advanced(left));
        assert(advanced(left) == (left, ProgressView::Done));
    } else {
        let rest = items.drop_first();
        let after = with_item(manifest, items[0])->Ok_0;
        assert(!(items[0] is Include) && !(items[0] is Warning));
        assert(without_next(pending) =~= seq![FileView { items: rest, error: None }]);
        assert forall|i: int| 0 <= i < rest.len() implies !(#[trigger] rest[i] is Include) && !(
        rest[i] is Warning) by {
            assert(rest[i] == items[i + 1]);
        }
        lemma_builder_says(after, rest);
        let left = BuilderView { pending: without_next(pending), ..builder };
        assert(advanced(builder) == advanced(BuilderView { manifest: after, ..left }));
    }
}

/// Saying one thing after another can be parted anywhere.
proof fn lemma_said_parts(manifest: ManifestView, first: Seq<ItemView>, others: Seq<ItemView>)
    ensures
        said(manifest, first + others) == match said(manifest, first) {
            Some(after) => said(after, others),
            None => None,
        },
    decreases first.len(),
{
    if first.len() == 0 {
        assert(first + others =~= others);
    } else {
        assert((first + others).drop_first() =~= first.drop_first() + others);
        match with_item(manifest, first[0]) {
            Ok(after) => lemma_said_parts(after, first.drop_first(), others),
            Err(_) => {},
        }
    }
}

/// Remotes of distinct names can be said one after another.
proof fn lemma_remotes_said(manifest: ManifestView, remotes: Seq<RemoteView>)
    requires
        crate::manifest::collections::distinct_names(manifest.remotes + remotes),
    ensures
        said(manifest, remote_items(remotes)) == Some(
            ManifestView { remotes: manifest.remotes + remotes, ..manifest },
        ),
    decreases remotes.len(),
{
    if remotes.len() == 0 {
        assert(manifest.remotes + remotes =~= manifest.remotes);
    } else {
        let remote = remotes[0];
        let rest = remotes.drop_first();
        let all = manifest.remotes + remotes;
        let holds = |r: RemoteView| r.name == remote.name;
        assert forall|i: int| 0 <= i < manifest.remotes.len() implies !holds(
            #[trigger] manifest.remotes[i],
        ) by {
            assert(all[i] == manifest.remotes[i]);
            assert(all[manifest.remotes.len() as int] == remote);
        }
        crate::lists::lemma_find_from(manifest.remotes, holds, manifest.remotes.len() as int);
        assert(remote_named(manifest.remotes, remote.name) is None);
        let after = ManifestView { remotes: manifest.remotes.push(remote), ..manifest };
        assert(after.remotes + rest =~= all);
        assert(remote_items(remotes).drop_first() =~= remote_items(rest));
        lemma_remotes_said(after, rest);
    }
}

/// Projects in the order of their paths can be said one after another.
proof fn lemma_projects_said(
    manifest: ManifestView,
    projects: Seq<(Seq<char>, ProjectView)>,
)
    requires
        ordered_paths(manifest.projects + projects),
        forall|i: int|
            0 <= i < projects.len() ==> (#[trigger] projects[i]).0 == project_path(projects[i].1),
    ensures
        said(manifest, project_items(projects)) == Some(
            ManifestView { projects: manifest.projects + projects, ..manifest },
        ),
    decreases projects.len(),
{
    if projects.len() == 0 {
        assert(manifest.projects + projects =~= manifest.projects);
    } else {
        let path = projects[0].0;
        let project = projects[0].1;
        let rest = projects.drop_first();
        let before = manifest.projects;
        let all = before + projects;
        let holds = |e: (Seq<char>, ProjectView)|
            crate::path::components(e.0) == crate::path::components(path);
        assert forall|i: int| 0 <= i < before.len() implies !holds(#[trigger] before[i])
            && crate::path::path_before(before[i].0, path) by {
            assert(all[i] == before[i]);
            assert(all[before.len() as int] == projects[0]);
            crate::manifest::collections::lemma_same_order_unless(before[i].0, path);
        }
        crate::lists::lemma_find_from(before, holds, before.len() as int);
        assert(entry_at(before, path) is None);
        crate::manifest::collections::lemma_entries_before(before, path);
        assert(entries_before(before, path) == before.len());
        assert(with_entry(before, path, project) =~= before.push(projects[0]));
        let after = ManifestView { projects: before.push(projects[0]), ..manifest };
        assert(after.projects + rest =~= all);
        assert(project_items(projects).drop_first() =~= project_items(rest));
        assert forall|i: int| 0 <= i < rest.len() implies (#[trigger] rest[i]).0 == project_path(
            rest[i].1,
        ) by {
            assert(rest[i] == projects[i + 1]);
        }
        lemma_projects_said(after, rest);
    }
}

/// What can be given only once can be said to a manifest that has nothing of it.
proof fn lemma_slots_said(manifest: ManifestView, remotes: Seq<RemoteView>)
    ensures
        said(ManifestView { remotes, ..empty_manifest() }, slots_items(manifest)) == Some(
            ManifestView { remotes, projects: Seq::empty(), ..manifest },
        ),
{
    let d = default_items(manifest.default);
    let s = server_items(manifest.manifest_server);
    let p = superproject_items(manifest.superproject);
    let c = contact_items(manifest.contactinfo);
    let h = hooks_items(manifest.repo_hooks);
    let m0 = ManifestView { remotes, ..empty_manifest() };
    let m1 = ManifestView { default: manifest.default, ..m0 };
    let m2 = ManifestView { manifest_server: manifest.manifest_server, ..m1 };
    let m3 = ManifestView { superproject: manifest.superproject, ..m2 };
    let m4 = ManifestView { contactinfo: manifest.contactinfo, ..m3 };
    lemma_default_said(m0, manifest.default);
    lemma_server_said(m1, manifest.manifest_server);
    lemma_superproject_said(m2, manifest.superproject);
    lemma_contact_said(m3, manifest.contactinfo);
    lemma_hooks_said(m4, manifest.repo_hooks);
    lemma_said_parts(m0, d, s + (p + (c + h)));
    lemma_said_parts(m1, s, p + (c + h));
    lemma_said_parts(m2, p, c + h);
    lemma_said_parts(m3, c, h);
}

/// A manifest says no warnings and asks for no files.
proof fn lemma_items_plain(manifest: ManifestView)
    ensures
        forall|i: int|
            0 <= i < manifest_items(manifest).len() ==> !(#[trigger] manifest_items(manifest)[
                i
            ] is Include) && !(manifest_items(manifest)[i] is Warning),
{
    let items = manifest_items(manifest);
    let r = remote_items(manifest.remotes);
    let d = default_items(manifest.default);
    let s = server_items(manifest.manifest_server);
    let p = superproject_items(manifest.superproject);
    let c = contact_items(manifest.contactinfo);
    let h = hooks_items(manifest.repo_hooks);
    let all = project_items(manifest.projects);
    assert(items =~= r + d + s + p + c + h + all);
}

/// A manifest that is put into tags element by element reads back as it is, with nothing odd and
/// nothing missing.
pub proof fn law_described_reads_back(manifest: ManifestView, steps: Seq<StepView>)
    requires
        begins(steps, described(manifest)),
        consistent(manifest),
        forall|i: int|
            0 <= i < manifest.projects.len() ==> tellable((#[trigger] manifest.projects[i]).1),
    ensures
        advanced(begun_with(document_body(steps, Seq::empty(), false))) == (
            BuilderView { manifest, warnings: Seq::empty(), pending: Seq::empty() },
            ProgressView::Done,
        ),
{
    lemma_read_described(manifest, steps);
    let items = manifest_items(manifest);
    let slots = slots_items(manifest);
    let projects = project_items(manifest.projects);
    assert(empty_manifest().remotes + manifest.remotes =~= manifest.remotes);
    lemma_remotes_said(empty_manifest(), manifest.remotes);
    lemma_slots_said(manifest, manifest.remotes);
    let most = ManifestView { projects: Seq::empty(), ..manifest };
    assert(most.projects + manifest.projects =~= manifest.projects);
    lemma_projects_said(most, manifest.projects);
    lemma_said_parts(empty_manifest(), remote_items(manifest.remotes), slots + projects);
    lemma_said_parts(
        ManifestView { remotes: manifest.remotes, ..empty_manifest() },
        slots,
        projects,
    );
    assert(said(empty_manifest(), items) == Some(manifest));
    lemma_items_plain(manifest);
    lemma_builder_says(empty_manifest(), items);
}

/// An element without children as it is written.
pub open spec fn element_tags(level: nat, name: Seq<char>, pairs: Pairs) -> Seq<WrittenTag> {
    seq![WrittenTag::Open(level, name, pairs), WrittenTag::Close(level, name)]
}

/// The keys and values that are written of a remote.
pub open spec fn written_remote_pairs(remote: RemoteView) -> Pairs {
    pair("name"@, Some(remote.name)) + pair("fetch"@, Some(remote.fetch)) + pair(
        "alias"@,
        remote.alias,
    ) + pair("review"@, remote.review)
}

/// The remotes as they are written.
pub open spec fn remotes_tags(remotes: Seq<RemoteView>) -> Seq<WrittenTag>
    decreases remotes.len(),
{
    if remotes.len() == 0 {
        Seq::empty()
    } else {
        remotes_tags(remotes.drop_last()) + element_tags(
            1,
            "remote"@,
            written_remote_pairs(remotes.last()),
        )
    }
}

/// A file operation as it is written.
pub open spec fn operation_tags(operation: FileOperationView) -> Seq<WrittenTag> {
    match operation {
        FileOperationView::LinkFile { src, dst } => element_tags(
            2,
            "linkfile"@,
            operation_pairs(src, dst),
        ),
        FileOperationView::CopyFile { src, dst } => element_tags(
            2,
            "copyfile"@,
            operation_pairs(src, dst),
        ),
    }
}

/// File operations as they are written.
pub open spec fn operations_tags(operations: Seq<FileOperationView>) -> Seq<WrittenTag>
    decreases operations.len(),
{
    if operations.len() == 0 {
        Seq::empty()
    } else {
        operations_tags(operations.drop_last()) + operation_tags(operations.last())
    }
}

/// A project as it is written.
pub open spec fn project_tags(project: ProjectView) -> Seq<WrittenTag> {
    seq![WrittenTag::Open(1, "project"@, project_pairs(project))] + operations_tags(
        project.file_operations,
    ) + seq![WrittenTag::Close(1, "project"@)]
}

/// The projects as they are written.
pub open spec fn projects_tags(projects: Seq<(Seq<char>, ProjectView)>) -> Seq<WrittenTag>
    decreases projects.len(),
{
    if projects.len() == 0 {
        Seq::empty()
    } else {
        projects_tags(projects.drop_last()) + project_tags(projects.last().1)
    }
}

/// The default as it is written, where there is one.
pub open spec fn default_tags(default: Option<DefaultView>) -> Seq<WrittenTag> {
    match default {
        Some(default) => element_tags(1, "default"@, default_pairs(default)),
        None => Seq::empty(),
    }
}

/// The manifest server as it is written, where there is one.
pub open spec fn server_tags(url: Option<Seq<char>>) -> Seq<WrittenTag> {
    match url {
        Some(url) => element_tags(1, "manifest-server"@, pair("url"@, Some(url))),
        None => Seq::empty(),
    }
}

/// The hooks as they are written, where there are any.
pub open spec fn hooks_tags(hooks: Option<RepoHooksView>) -> Seq<WrittenTag> {
    match hooks {
        Some(hooks) => element_tags(1, "repo-hooks"@, hooks_pairs(hooks)),
        None => Seq::empty(),
    }
}

/// The tags of a manifest as they are written.
pub open spec fn written_tags(manifest: ManifestView) -> Seq<WrittenTag> {
    seq![WrittenTag::Open(0, "manifest"@, Seq::empty())] + remotes_tags(manifest.remotes)
        + default_tags(manifest.default) + server_tags(manifest.manifest_server) + hooks_tags(
        manifest.repo_hooks,
    ) + projects_tags(manifest.projects) + seq![WrittenTag::Close(0, "manifest"@)]
}

/// Keys and values are written one after another.
proof fn lemma_pairs_text(first: Pairs, others: Pairs)
    ensures
        pairs_text(first + others) == pairs_text(first) + pairs_text(others),
    decreases first.len(),
{
    if first.len() == 0 {
        assert(first + others =~= others);
    } else {
        assert((first + others).drop_first() =~= first.drop_first() + others);
        lemma_pairs_text(first.drop_first(), others);
        assert(pairs_text(first + others) =~= pairs_text(first) + pairs_text(others));
    }
}

/// A key is written with its value, where there is one.
proof fn lemma_pair_text(key: Seq<char>, value: Option<Seq<char>>)
    ensures
        pairs_text(pair(key, value)) == option_text(key, value),
{
    match value {
        Some(text) => {
            reveal_with_fuel(pairs_text, 2);
            assert(pair(key, value).drop_first() =~= Seq::empty());
            assert(pairs_text(pair(key, value)) =~= option_text(key, value));
        },
        None => {},
    }
}

/// A key with its value is written in front of the others.
proof fn lemma_pair_before(key: Seq<char>, value: Option<Seq<char>>, others: Pairs)
    ensures
        pairs_text(pair(key, value) + others) == option_text(key, value) + pairs_text(others),
{
    lemma_pairs_text(pair(key, value), others);
    lemma_pair_text(key, value);
}

proof fn lemma_remote_text(remote: RemoteView)
    ensures
        pairs_text(written_remote_pairs(remote)) == remote_attributes(remote),
{
    let p1 = pair("name"@, Some(remote.name));
    let p2 = p1 + pair("fetch"@, Some(remote.fetch));
    let p3 = p2 + pair("alias"@, remote.alias);
    lemma_pair_text("name"@, Some(remote.name));
    lemma_pair_text("fetch"@, Some(remote.fetch));
    lemma_pair_text("alias"@, remote.alias);
    lemma_pair_text("review"@, remote.review);
    lemma_pairs_text(p1, pair("fetch"@, Some(remote.fetch)));
    lemma_pairs_text(p2, pair("alias"@, remote.alias));
    lemma_pairs_text(p3, pair("review"@, remote.review));
}

proof fn lemma_default_text(default: DefaultView)
    ensures
        pairs_text(default_pairs(default)) == default_attributes(default),
{
    let jobs = number_text(default.sync_j);
    let sync = boolean_text(default.sync_c);
    let p4 = pair("sync-c"@, sync);
    let p3 = pair("sync-j"@, jobs) + p4;
    let p2 = pair("remote"@, default.remote) + p3;
    lemma_pair_text("sync-c"@, sync);
    lemma_pair_before("sync-j"@, jobs, p4);
    lemma_pair_before("remote"@, default.remote, p3);
    lemma_pair_before("revision"@, default.revision, p2);
    assert(pairs_text(default_pairs(default)) =~= default_attributes(default));
}

proof fn lemma_project_text(project: ProjectView)
    ensures
        pairs_text(project_pairs(project)) == project_attributes(project),
{
    let groups = groups_text(project.groups);
    let depth = number_text(project.clone_depth);
    let sync = boolean_text(project.sync_c);
    let p8 = pair("groups"@, groups);
    let p7 = pair("clone-depth"@, depth) + p8;
    let p6 = pair("sync-c"@, sync) + p7;
    let p5 = pair("dest-branch"@, project.dest_branch) + p6;
    let p4 = pair("revision"@, project.revision) + p5;
    let p3 = pair("remote"@, project.remote) + p4;
    let p2 = pair("path"@, project.path) + p3;
    lemma_pair_text("groups"@, groups);
    lemma_pair_before("clone-depth"@, depth, p8);
    lemma_pair_before("sync-c"@, sync, p7);
    lemma_pair_before("dest-branch"@, project.dest_branch, p6);
    lemma_pair_before("revision"@, project.revision, p5);
    lemma_pair_before("remote"@, project.remote, p4);
    lemma_pair_before("path"@, project.path, p3);
    lemma_pair_before("name"@, Some(project.name), p2);
    lemma_together(
        option_text("name"@, Some(project.name)),
        option_text("path"@, project.path),
        option_text("remote"@, project.remote),
        option_text("revision"@, project.revision),
        option_text("dest-branch"@, project.dest_branch),
        option_text("sync-c"@, sync),
        option_text("clone-depth"@, depth),
        option_text("groups"@, groups),
    );
}

/// Eight texts are the same whichever are put together first.
proof fn lemma_together(
    a: Seq<char>,
    b: Seq<char>,
    c: Seq<char>,
    d: Seq<char>,
    e: Seq<char>,
    f: Seq<char>,
    g: Seq<char>,
    h: Seq<char>,
)
    ensures
        a + b + c + d + e + f + g + h == a + (b + (c + (d + (e + (f + (g + h)))))),
{
    assert(a + b + c + d + e + f + g + h =~= a + b + c + d + e + f + (g + h));
    assert(a + b + c + d + e + f + (g + h) =~= a + b + c + d + e + (f + (g + h)));
    assert(a + b + c + d + e + (f + (g + h)) =~= a + b + c + d + (e + (f + (g + h))));
    assert(a + b + c + d + (e + (f + (g + h))) =~= a + b + c + (d + (e + (f + (g + h)))));
    assert(a + b + c + (d + (e + (f + (g + h)))) =~= a + b + (c + (d + (e + (f + (g + h))))));
    assert(a + b + (c + (d + (e + (f + (g + h))))) =~= a + (b + (c + (d + (e + (f + (g + h)))))));
}

proof fn lemma_remotes_lines(remotes: Seq<RemoteView>)
    ensures
        tag_lines(remotes_tags(remotes)) == remotes_lines(remotes),
    decreases remotes.len(),
{
    if remotes.len() > 0 {
        lemma_remotes_lines(remotes.drop_last());
        lemma_remote_text(remotes.last());
    }
    assert(tag_lines(remotes_tags(remotes)) =~= remotes_lines(remotes));
}

proof fn lemma_operations_lines(operations: Seq<FileOperationView>)
    ensures
        tag_lines(operations_tags(operations)) == operations_lines(operations),
    decreases operations.len(),
{
    if operations.len() > 0 {
        lemma_operations_lines(operations.drop_last());
        match operations.last() {
            FileOperationView::LinkFile { src, dst } => {
                lemma_pair_before("src"@, Some(src), pair("dest"@, Some(dst)));
                lemma_pair_text("dest"@, Some(dst));
            },
            FileOperationView::CopyFile { src, dst } => {
                lemma_pair_before("src"@, Some(src), pair("dest"@, Some(dst)));
                lemma_pair_text("dest"@, Some(dst));
            },
        }
        assert(tag_lines(operation_tags(operations.last())) =~= operation_lines(
            operations.last(),
        ));
    }
    assert(tag_lines(operations_tags(operations)) =~= operations_lines(operations));
}

proof fn lemma_projects_lines(projects: Seq<(Seq<char>, ProjectView)>)
    ensures
        tag_lines(projects_tags(projects)) == projects_lines(projects),
    decreases projects.len(),
{
    if projects.len() > 0 {
        let project = projects.last().1;
        lemma_projects_lines(projects.drop_last());
        lemma_project_text(project);
        lemma_operations_lines(project.file_operations);
        assert(tag_lines(project_tags(project)) =~= project_lines(project));
    }
    assert(tag_lines(projects_tags(projects)) =~= projects_lines(projects));
}

/// A manifest is written as its tags, each on a line of its own.
pub proof fn law_written_as_tags(manifest: ManifestView)
    ensures
        manifest_lines(manifest) == tag_lines(written_tags(manifest)),
{
    lemma_remotes_lines(manifest.remotes);
    lemma_projects_lines(manifest.projects);
    match manifest.default {
        Some(default) => {
            lemma_default_text(default);
        },
        None => {},
    }
    assert(tag_lines(default_tags(manifest.default)) =~= default_lines(manifest.default));
    match manifest.manifest_server {
        Some(url) => {
            lemma_pair_text("url"@, Some(url));
        },
        None => {},
    }
    assert(tag_lines(server_tags(manifest.manifest_server)) =~= server_lines(
        manifest.manifest_server,
    ));
    match manifest.repo_hooks {
        Some(hooks) => {
            lemma_pair_before(
                "in-project"@,
                hooks.in_project,
                pair("enabled-list"@, hooks.enabled_list),
            );
            lemma_pair_text("enabled-list"@, hooks.enabled_list);
            assert(pairs_text(hooks_pairs(hooks)) == hooks_attributes(hooks));
        },
        None => {},
    }
    assert(tag_lines(hooks_tags(manifest.repo_hooks)) =~= hooks_lines(manifest.repo_hooks));
    assert(manifest_lines(manifest) =~= tag_lines(written_tags(manifest)));
}

/// Projects go on with the last of them.
proof fn lemma_projects_events_last(
    projects: Seq<(Seq<char>, ProjectView)>,
    last: (Seq<char>, ProjectView),
)
    ensures
        projects_events(projects.push(last)) == projects_events(projects) + project_events(last.1),
    decreases projects.len(),
{
    let all = projects.push(last);
    if projects.len() == 0 {
        reveal_with_fuel(projects_events, 2);
        assert(all.drop_first() =~= Seq::empty());
        assert(projects_events(all) =~= projects_events(projects) + project_events(last.1));
    } else {
        let rest = projects.drop_first();
        assert(all.drop_first() =~= rest.push(last));
        lemma_projects_events_last(rest, last);
        assert(projects_events(all) =~= projects_events(projects) + project_events(last.1));
    }
}

/// Projects without file operations are written as they are described.
proof fn lemma_projects_written(projects: Seq<(Seq<char>, ProjectView)>)
    requires
        forall|i: int|
            0 <= i < projects.len() ==> (#[trigger] projects[i]).1.file_operations.len() == 0,
    ensures
        tag_events(projects_tags(projects)) == projects_events(projects),
    decreases projects.len(),
{
    if projects.len() > 0 {
        let front = projects.drop_last();
        let last = projects.last();
        assert forall|i: int| 0 <= i < front.len() implies (
        #[trigger] front[i]).1.file_operations.len() == 0 by {
            assert(front[i] == projects[i]);
        }
        lemma_projects_written(front);
        lemma_projects_events_last(front, last);
        assert(front.push(last) =~= projects);
        assert(last == projects[projects.len() - 1]);
        assert(operations_tags(last.1.file_operations) =~= Seq::empty());
        assert(operation_events(last.1.file_operations) =~= Seq::empty());
        assert(tag_events(project_tags(last.1)) =~= project_events(last.1));
    }
    assert(tag_events(projects_tags(projects)) =~= projects_events(projects));
}

/// A project without what is not written of it.
pub open spec fn written_project(project: ProjectView) -> ProjectView {
    ProjectView { annotations: Seq::empty(), ..project }
}

/// The projects without what is not written of them.
pub open spec fn written_projects(projects: Seq<(Seq<char>, ProjectView)>) -> Seq<
    (Seq<char>, ProjectView),
> {
    Seq::new(projects.len(), |i: int| (projects[i].0, written_project(projects[i].1)))
}

/// A manifest without what is not written of it: annotations, the superproject and the contact.
pub open spec fn written_part(manifest: ManifestView) -> ManifestView {
    ManifestView {
        projects: written_projects(manifest.projects),
        superproject: None,
        contactinfo: None,
        ..manifest
    }
}

/// What is written of a manifest is read again: of what is written there are only projects, which
/// are at their own paths and have no file operations, and whose groups, if there are any, are not
/// an empty list and hold no comma.
pub open spec fn readable(manifest: ManifestView) -> bool {
    &&& consistent(manifest)
    &&& manifest.remotes.len() == 0
    &&& manifest.default is None
    &&& manifest.manifest_server is None
    &&& manifest.repo_hooks is None
    &&& forall|i: int|
        0 <= i < manifest.projects.len() ==> tellable(
            written_project((#[trigger] manifest.projects[i]).1),
        ) && manifest.projects[i].1.file_operations.len() == 0
}

/// What is not written makes no difference to what is.
proof fn lemma_written_projects(projects: Seq<(Seq<char>, ProjectView)>)
    ensures
        projects_tags(written_projects(projects)) == projects_tags(projects),
    decreases projects.len(),
{
    let part = written_projects(projects);
    if projects.len() > 0 {
        lemma_written_projects(projects.drop_last());
        assert(part.drop_last() =~= written_projects(projects.drop_last()));
        assert(project_pairs(part.last().1) == project_pairs(projects.last().1));
        assert(project_tags(part.last().1) == project_tags(projects.last().1));
    }
}

/// A manifest of nothing but projects without file operations reads back from the tags that it is
/// written as, but for what is not written of it.
pub proof fn law_written_reads_back(manifest: ManifestView, steps: Seq<StepView>)
    requires
        begins(steps, tag_events(written_tags(manifest)).push(EventView::Finish)),
        readable(manifest),
    ensures
        advanced(begun_with(document_body(steps, Seq::empty(), false))) == (
            BuilderView {
                manifest: written_part(manifest),
                warnings: Seq::empty(),
                pending: Seq::empty(),
            },
            ProgressView::Done,
        ),
{
    let part = written_part(manifest);
    assert forall|i: int| 0 <= i < part.projects.len() implies (#[trigger] part.projects[i]).0
        == project_path(part.projects[i].1) && tellable(part.projects[i].1)
        && part.projects[i].1.file_operations.len() == 0 by {
        assert(tellable(written_project(manifest.projects[i].1)));
        assert(manifest.projects[i].0 == project_path(manifest.projects[i].1));
    }
    assert forall|i: int, j: int| 0 <= i < j < part.projects.len() implies crate::path::path_before(
        #[trigger] part.projects[i].0,
        #[trigger] part.projects[j].0,
    ) by {
        assert(crate::path::path_before(manifest.projects[i].0, manifest.projects[j].0));
    }
    lemma_written_projects(manifest.projects);
    lemma_projects_written(part.projects);
    assert(remotes_tags(part.remotes) =~= Seq::empty());
    assert(remote_events(part.remotes) =~= Seq::empty());
    assert(slots_events(part) =~= Seq::empty());
    assert(tag_events(written_tags(manifest)).push(EventView::Finish) =~= described(part));
    law_described_reads_back(part, steps);
}

/// No pair has the key.
spec fn lacks(pairs: Pairs, key: Seq<char>) -> bool {
    forall|i: int| 0 <= i < pairs.len() ==> (#[trigger] pairs[i]).0 != key
}

/// One more plain key in front of others that do not have it.
proof fn lemma_keys_before(key: Seq<char>, value: Option<Seq<char>>, others: Pairs)
    requires
        is_plain_name(key),
        plain_keys(others),
        lacks(others, key),
    ensures
        plain_keys(pair(key, value) + others),
        forall|k: Seq<char>| k != key && lacks(others, k) ==> #[trigger] lacks(
            pair(key, value) + others,
            k,
        ),
{
    let all = pair(key, value) + others;
    let n = pair(key, value).len() as int;
    assert(forall|i: int| n <= i < all.len() ==> #[trigger] all[i] == others[i - n]);
}

proof fn lemma_plain_keys()
    ensures
        is_plain_name("name"@),
        is_plain_name("path"@),
        is_plain_name("remote"@),
        is_plain_name("revision"@),
        is_plain_name("dest-branch"@),
        is_plain_name("sync-c"@),
        is_plain_name("clone-depth"@),
        is_plain_name("groups"@),
        is_plain_name("project"@),
        is_plain_name("manifest"@),
{
    reveal_strlit("name");
    reveal_strlit("path");
    reveal_strlit("remote");
    reveal_strlit("revision");
    reveal_strlit("dest-branch");
    reveal_strlit("sync-c");
    reveal_strlit("clone-depth");
    reveal_strlit("groups");
    reveal_strlit("project");
    reveal_strlit("manifest");
}

/// The keys of a project are plain and distinct.
proof fn lemma_project_keys(project: ProjectView)
    ensures
        plain_keys(project_pairs(project)),
{
    lemma_plain_keys();
    reveal_strlit("name");
    reveal_strlit("path");
    reveal_strlit("remote");
    reveal_strlit("revision");
    reveal_strlit("dest-branch");
    reveal_strlit("sync-c");
    reveal_strlit("clone-depth");
    reveal_strlit("groups");
    let groups = groups_text(project.groups);
    let depth = number_text(project.clone_depth);
    let sync = boolean_text(project.sync_c);
    let p9: Pairs = Seq::empty();
    let p8 = pair("groups"@, groups);
    let p7 = pair("clone-depth"@, depth) + p8;
    let p6 = pair("sync-c"@, sync) + p7;
    let p5 = pair("dest-branch"@, project.dest_branch) + p6;
    let p4 = pair("revision"@, project.revision) + p5;
    let p3 = pair("remote"@, project.remote) + p4;
    let p2 = pair("path"@, project.path) + p3;
    assert("name"@[0] == 'n' && "path"@[0] == 'p' && "remote"@.len() == 6 && "revision"@.len() == 8
        && "dest-branch"@[0] == 'd' && "sync-c"@[0] == 's' && "clone-depth"@[0] == 'c'
        && "groups"@[0] == 'g' && "remote"@[0] == 'r' && "revision"@[0] == 'r');
    lemma_keys_before("groups"@, groups, p9);
    assert(p8 + p9 =~= p8);
    lemma_keys_before("clone-depth"@, depth, p8);
    lemma_keys_before("sync-c"@, sync, p7);
    lemma_keys_before("dest-branch"@, project.dest_branch, p6);
    lemma_keys_before("revision"@, project.revision, p5);
    lemma_keys_before("remote"@, project.remote, p4);
    lemma_keys_before("path"@, project.path, p3);
    lemma_keys_before("name"@, Some(project.name), p2);
}

/// No value that is written of a project holds a quote or an ampersand.
pub open spec fn plain_project(project: ProjectView) -> bool {
    unquoted_values(project_pairs(project)) && literal_values(project_pairs(project))
}

/// The tags of projects without file operations are plain, and each is closed where it is opened.
proof fn lemma_projects_nested(
    projects: Seq<(Seq<char>, ProjectView)>,
    rest: Seq<WrittenTag>,
    open: Seq<Seq<char>>,
)
    requires
        forall|i: int|
            0 <= i < projects.len() ==> (#[trigger] projects[i]).1.file_operations.len() == 0
                && plain_project(projects[i].1),
    ensures
        nested(projects_tags(projects) + rest, open) == nested(rest, open),
        plain_tags(projects_tags(projects)),
        literal_tags(projects_tags(projects)),
    decreases projects.len(),
{
    let tags = projects_tags(projects);
    if projects.len() == 0 {
        assert(tags + rest =~= rest);
    } else {
        let front = projects.drop_last();
        let project = projects.last().1;
        assert(projects[projects.len() - 1] == projects.last());
        assert forall|i: int| 0 <= i < front.len() implies (
        #[trigger] front[i]).1.file_operations.len() == 0 && plain_project(front[i].1) by {
            assert(front[i] == projects[i]);
        }
        let own = project_tags(project);
        lemma_projects_nested(front, own + rest, open);
        lemma_project_keys(project);
        lemma_plain_keys();
        assert(operations_tags(project.file_operations) =~= Seq::empty());
        assert(own =~= seq![
            WrittenTag::Open(1, "project"@, project_pairs(project)),
            WrittenTag::Close(1, "project"@),
        ]);
        assert(tags + rest =~= projects_tags(front) + (own + rest));
        let inner = open.push("project"@);
        let closing_rest = seq![WrittenTag::Close(1, "project"@)] + rest;
        assert((own + rest).drop_first() =~= closing_rest);
        assert(closing_rest.drop_first() =~= rest);
        assert(inner.drop_last() =~= open);
        assert(nested(closing_rest, inner) == nested(rest, open));
        assert((own + rest)[0] == own[0]);
        assert(nested(own + rest, open) == nested(rest, open));
        let before = projects_tags(front);
        assert(tags =~= before + own);
        assert forall|i: int| 0 <= i < tags.len() implies plain_tag(#[trigger] tags[i]) && (
        tags[i] matches WrittenTag::Open(_, _, pairs) ==> literal_values(pairs)) by {
            if i < before.len() {
                assert(tags[i] == before[i]);
            } else {
                assert(tags[i] == own[i - before.len()]);
            }
        }
    }
}

/// The tags of a manifest of nothing but projects without file operations are plain and nested.
proof fn lemma_manifest_nested(manifest: ManifestView)
    requires
        readable(manifest),
        forall|i: int|
            0 <= i < manifest.projects.len() ==> plain_project((#[trigger] manifest.projects[i]).1),
    ensures
        nested(written_tags(manifest), Seq::empty()),
        plain_tags(written_tags(manifest)),
        literal_tags(written_tags(manifest)),
{
    let tags = written_tags(manifest);
    let inside = projects_tags(manifest.projects);
    let none: Seq<Seq<char>> = Seq::empty();
    let end = seq![WrittenTag::Close(0, "manifest"@)];
    lemma_plain_keys();
    lemma_projects_nested(manifest.projects, end, none.push("manifest"@));
    assert(remotes_tags(manifest.remotes) =~= Seq::empty());
    assert(tags =~= seq![WrittenTag::Open(0, "manifest"@, Seq::empty())] + (inside + end));
    assert(tags.drop_first() =~= inside + end);
    assert(none.push("manifest"@).drop_last() =~= none);
    assert(end.drop_first() =~= Seq::empty());
    assert(nested(end.drop_first(), none));
    assert(nested(end, none.push("manifest"@)));
    assert forall|i: int| 0 <= i < tags.len() implies plain_tag(#[trigger] tags[i]) && (
    tags[i] matches WrittenTag::Open(_, _, pairs) ==> literal_values(pairs)) by {
        if 0 < i < tags.len() - 1 {
            assert(tags[i] == inside[i - 1]);
        }
    }
}

/// What is written of a manifest is read again from its text: besides what makes it readable, no
/// value holds a character that would end it or stand for another.
pub open spec fn readable_text(manifest: ManifestView) -> bool {
    &&& readable(manifest)
    &&& forall|i: int|
        0 <= i < manifest.projects.len() ==> plain_project((#[trigger] manifest.projects[i]).1)
}

/// A manifest of nothing but projects without file operations reads back from the text that it is
/// written as, but for what is not written of it, where the text is read as the tags that it is.
pub proof fn law_text_reads_back(manifest: ManifestView)
    requires
        readable_text(manifest),
        reads_tags(text_bytes(serialized(manifest))),
    ensures
        advanced(begun(text_bytes(serialized(manifest)))) == (
            BuilderView {
                manifest: written_part(manifest),
                warnings: Seq::empty(),
                pending: Seq::empty(),
            },
            ProgressView::Done,
        ),
{
    let tags = written_tags(manifest);
    let document = text_bytes(serialized(manifest));
    law_written_as_tags(manifest);
    assert(serialized(manifest) == tags_text(tags));
    lemma_manifest_nested(manifest);
    law_written_reads_back(manifest, decoded_steps(document));
}

/// The first of the remotes is written first.
proof fn lemma_remotes_first(remotes: Seq<RemoteView>)
    requires
        remotes.len() > 0,
    ensures
        remotes_tags(remotes).len() > 0,
        remotes_tags(remotes)[0] == WrittenTag::Open(
            1,
            "remote"@,
            written_remote_pairs(remotes[0]),
        ),
    decreases remotes.len(),
{
    if remotes.len() > 1 {
        lemma_remotes_first(remotes.drop_last());
    } else {
        assert(remotes_tags(remotes.drop_last()) =~= Seq::empty());
    }
}

/// A manifest with a remote does not read back from the tags that it is written as: a remote is
/// written with a closing tag, and is refused so.
pub proof fn law_written_remote_refused(manifest: ManifestView, steps: Seq<StepView>)
    requires
        begins(steps, tag_events(written_tags(manifest))),
        manifest.remotes.len() > 0,
    ensures
        document_body(steps, Seq::empty(), false) == (FileView {
            items: Seq::empty(),
            error: Some(
                ParseErrorView::UnexpectedStart {
                    context: Context::Manifest,
                    name: text_bytes("remote"@),
                },
            ),
        }),
{
    lemma_remotes_first(manifest.remotes);
    lemma_element_names();
    let tags = written_tags(manifest);
    assert(tags[0] == WrittenTag::Open(0, "manifest"@, Seq::empty()));
    assert(tags[1] == remotes_tags(manifest.remotes)[0]);
    let events = tag_events(tags);
    assert(steps[0].event == events[0]);
    assert(steps[1].event == events[1]);
    let rest = steps.drop_first();
    assert(rest[0] == steps[1]);
    assert(manifest_body(rest, Seq::empty()).error is Some);
}

} // verus!
