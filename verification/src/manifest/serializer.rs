//! Writing a manifest as a document.
use vstd::prelude::*;

use crate::manifest::{
    DefaultView, FileOperation, FileOperationView, Manifest, ManifestView, Project, ProjectView,
    Remote, RemoteView, RepoHooksView,
};
use crate::manifest::elements::{boolean_of, number_of, project_of};
use crate::markup::{attribute_text, closing, indentation, opening};
use crate::text::{
    begins_with, concat2, decimal, decimal_of, join, join_with, numeral, split_on,
};
use crate::xml::{
    depth, finish_document, new_document, new_line, tag_added, write_close,
    write_open, written, DocumentWriter,
};

verus! {

/// An attribute as it is written, where there is a value.
pub open spec fn option_text(key: Seq<char>, value: Option<Seq<char>>) -> Seq<char> {
    match value {
        Some(value) => attribute_text(key, value),
        None => Seq::empty(),
    }
}

/// A truth value as it is written.
pub open spec fn boolean_text(value: Option<bool>) -> Option<Seq<char>> {
    match value {
        Some(true) => Some("true"@),
        Some(false) => Some("false"@),
        None => None,
    }
}

/// A number as it is written.
pub open spec fn number_text(value: Option<u32>) -> Option<Seq<char>> {
    match value {
        Some(n) => Some(decimal(n as int)),
        None => None,
    }
}

/// The groups as they are written.
pub open spec fn groups_text(groups: Option<Seq<Seq<char>>>) -> Option<Seq<char>> {
    match groups {
        Some(list) => Some(join_with(list, ","@)),
        None => None,
    }
}

/// The lines of an element without children.
pub open spec fn element_lines(level: nat, name: Seq<char>, attributes: Seq<char>) -> Seq<
    Seq<char>,
> {
    seq![opening(level, name, attributes), closing(level, name)]
}

/// The attributes of a remote.
pub open spec fn remote_attributes(remote: RemoteView) -> Seq<char> {
    attribute_text("name"@, remote.name) + attribute_text("fetch"@, remote.fetch) + option_text(
        "alias"@,
        remote.alias,
    ) + option_text("review"@, remote.review)
}

/// The attributes of the default.
pub open spec fn default_attributes(default: DefaultView) -> Seq<char> {
    option_text("revision"@, default.revision) + option_text("remote"@, default.remote)
        + option_text("sync-j"@, number_text(default.sync_j)) + option_text(
        "sync-c"@,
        boolean_text(default.sync_c),
    )
}

/// The attributes of the hooks.
pub open spec fn hooks_attributes(hooks: RepoHooksView) -> Seq<char> {
    option_text("in-project"@, hooks.in_project) + option_text("enabled-list"@, hooks.enabled_list)
}

/// The attributes of a project.
pub open spec fn project_attributes(project: ProjectView) -> Seq<char> {
    attribute_text("name"@, project.name) + option_text("path"@, project.path) + option_text(
        "remote"@,
        project.remote,
    ) + option_text("revision"@, project.revision) + option_text(
        "dest-branch"@,
        project.dest_branch,
    ) + option_text("sync-c"@, boolean_text(project.sync_c)) + option_text(
        "clone-depth"@,
        number_text(project.clone_depth),
    ) + option_text("groups"@, groups_text(project.groups))
}

/// The lines of a file operation.
pub open spec fn operation_lines(operation: FileOperationView) -> Seq<Seq<char>> {
    match operation {
        FileOperationView::LinkFile { src, dst } => element_lines(
            2,
            "linkfile"@,
            attribute_text("src"@, src) + attribute_text("dest"@, dst),
        ),
        FileOperationView::CopyFile { src, dst } => element_lines(
            2,
            "copyfile"@,
            attribute_text("src"@, src) + attribute_text("dest"@, dst),
        ),
    }
}

/// The lines of file operations.
pub open spec fn operations_lines(operations: Seq<FileOperationView>) -> Seq<Seq<char>>
    decreases operations.len(),
{
    if operations.len() == 0 {
        Seq::empty()
    } else {
        operations_lines(operations.drop_last()) + operation_lines(operations.last())
    }
}

/// The lines of a project.
pub open spec fn project_lines(project: ProjectView) -> Seq<Seq<char>> {
    seq![opening(1, "project"@, project_attributes(project))] + operations_lines(
        project.file_operations,
    ) + seq![closing(1, "project"@)]
}

/// The lines of remotes.
pub open spec fn remotes_lines(remotes: Seq<RemoteView>) -> Seq<Seq<char>>
    decreases remotes.len(),
{
    if remotes.len() == 0 {
        Seq::empty()
    } else {
        remotes_lines(remotes.drop_last()) + element_lines(
            1,
            "remote"@,
            remote_attributes(remotes.last()),
        )
    }
}

/// The lines of projects.
pub open spec fn projects_lines(projects: Seq<(Seq<char>, ProjectView)>) -> Seq<Seq<char>>
    decreases projects.len(),
{
    if projects.len() == 0 {
        Seq::empty()
    } else {
        projects_lines(projects.drop_last()) + project_lines(projects.last().1)
    }
}

/// The lines of the default, where there is one.
pub open spec fn default_lines(default: Option<DefaultView>) -> Seq<Seq<char>> {
    match default {
        Some(default) => element_lines(1, "default"@, default_attributes(default)),
        None => Seq::empty(),
    }
}

/// The lines of the manifest server, where there is one.
pub open spec fn server_lines(url: Option<Seq<char>>) -> Seq<Seq<char>> {
    match url {
        Some(url) => element_lines(1, "manifest-server"@, attribute_text("url"@, url)),
        None => Seq::empty(),
    }
}

/// The lines of the hooks, where there are any.
pub open spec fn hooks_lines(hooks: Option<RepoHooksView>) -> Seq<Seq<char>> {
    match hooks {
        Some(hooks) => element_lines(1, "repo-hooks"@, hooks_attributes(hooks)),
        None => Seq::empty(),
    }
}

/// The lines of a manifest: its remotes, the default, the manifest server, the hooks and the
/// projects.
pub open spec fn manifest_lines(manifest: ManifestView) -> Seq<Seq<char>> {
    seq![opening(0, "manifest"@, Seq::empty())] + remotes_lines(manifest.remotes) + default_lines(
        manifest.default,
    ) + server_lines(manifest.manifest_server) + hooks_lines(manifest.repo_hooks) + projects_lines(
        manifest.projects,
    ) + seq![closing(0, "manifest"@)]
}

/// A manifest as a document.
pub open spec fn serialized(manifest: ManifestView) -> Seq<char> {
    join_with(manifest_lines(manifest), seq!['\n'])
}

/// A number or a truth value that is written reads back as itself.
pub proof fn law_values_read_back(number: Option<u32>, boolean: Option<bool>)
    ensures
        number_of(number_text(number)) == number,
        boolean_of(boolean_text(boolean)) == boolean,
{
    match number {
        Some(n) => {
            crate::text::law_numeral_read_back(n as nat);
            let text = decimal(n as int);
            assert(!begins_with(text, '+')) by {
                lemma_no_sign(n as nat);
            }
        },
        None => {},
    }
    reveal_strlit("true");
    reveal_strlit("false");
    assert("true"@.len() != "false"@.len());
}

/// A numeral does not begin with a sign.
proof fn lemma_no_sign(n: nat)
    ensures
        !begins_with(numeral(n, 10), '+'),
        numeral(n, 10).len() > 0,
    decreases n,
{
    reveal_strlit("0123456789abcdef");
    if n >= 10 {
        lemma_no_sign(n / 10);
        assert(numeral(n, 10)[0] == numeral(n / 10, 10)[0]);
    }
}

/// Groups that are written read back as themselves, where there are any and none holds a comma.
pub proof fn law_groups_read_back(groups: Seq<Seq<char>>)
    requires
        groups.len() > 0,
        forall|i: int| 0 <= i < groups.len() ==> !(#[trigger] groups[i]).contains(','),
    ensures
        split_on(join_with(groups, ","@), ',') == groups,
    decreases groups.len(),
{
    reveal_strlit(",");
    assert(","@ =~= seq![',']);
    let last = groups.last();
    assert(!groups[groups.len() - 1].contains(','));
    crate::text::law_split_without_separator(last, ',');
    if groups.len() == 1 {
        assert(groups =~= seq![last]);
    } else {
        let front = groups.drop_last();
        assert forall|i: int| 0 <= i < front.len() implies !(#[trigger] front[i]).contains(
            ',',
        ) by {
            assert(front[i] == groups[i]);
        }
        law_groups_read_back(front);
        crate::text::lemma_split_between(join_with(front, seq![',']), last, ',');
        assert(front + seq![last] =~= groups);
    }
}

/// The values of a project's attributes as they are written, in the order of its fields.
pub open spec fn written_values(project: ProjectView) -> Seq<Option<Seq<char>>> {
    seq![
        Some(project.name),
        project.path,
        project.remote,
        project.revision,
        project.dest_branch,
        groups_text(project.groups),
        boolean_text(project.sync_c),
        number_text(project.clone_depth),
        None,
    ]
}

/// The values that are written of a project stand for the project, where its groups, if it names
/// any, are not an empty list and hold no comma.
pub proof fn law_project_read_back(project: ProjectView)
    requires
        project.annotations.len() == 0,
        project.groups matches Some(groups) ==> groups.len() > 0 && forall|i: int|
            0 <= i < groups.len() ==> !(#[trigger] groups[i]).contains(','),
    ensures
        project_of(written_values(project), project.file_operations) == project,
{
    law_values_read_back(project.clone_depth, project.sync_c);
    match project.groups {
        Some(groups) => {
            law_groups_read_back(groups);
        },
        None => {},
    }
    let after = project_of(written_values(project), project.file_operations);
    assert(after.annotations =~= project.annotations);
    assert(after == project);
}

/// The writer has written the lines, the first of which is not empty.
spec fn has_lines(writer: DocumentWriter, lines: Seq<Seq<char>>) -> bool {
    &&& written(writer) == join_with(lines, seq!['\n'])
    &&& lines.len() > 0
    &&& lines[0].len() > 0
}

/// One more tag is one more line.
proof fn lemma_line_added(lines: Seq<Seq<char>>, level: nat, tag: Seq<char>)
    requires
        lines.len() > 0,
        lines[0].len() > 0,
    ensures
        tag_added(join_with(lines, seq!['\n']), level, tag) == join_with(
            lines.push(indentation(level) + tag),
            seq!['\n'],
        ),
    decreases lines.len(),
{
    lemma_not_empty(lines);
    assert(lines.push(indentation(level) + tag).drop_last() =~= lines);
    assert(join_with(lines, seq!['\n']) + new_line(level) + tag =~= join_with(lines, seq!['\n'])
        + seq!['\n'] + (indentation(level) + tag));
}

proof fn lemma_not_empty(lines: Seq<Seq<char>>)
    requires
        lines.len() > 0,
        lines[0].len() > 0,
    ensures
        join_with(lines, seq!['\n']).len() > 0,
    decreases lines.len(),
{
    if lines.len() > 1 {
        lemma_not_empty(lines.drop_last());
    }
}

/// Writes an opening tag on a line of its own.
fn put_open(writer: &mut DocumentWriter, content: &str, Ghost(lines): Ghost<Seq<Seq<char>>>)
    requires
        has_lines(*old(writer), lines),
    ensures
        has_lines(
            *final(writer),
            lines.push(indentation(depth(*old(writer))) + (seq!['<'] + content@ + seq!['>'])),
        ),
        depth(*final(writer)) == depth(*old(writer)) + 1,
{
    proof {
        lemma_line_added(lines, depth(*writer), seq!['<'] + content@ + seq!['>']);
    }
    write_open(writer, content);
}

/// Writes a closing tag on a line of its own.
fn put_close(writer: &mut DocumentWriter, name: &str, Ghost(lines): Ghost<Seq<Seq<char>>>)
    requires
        has_lines(*old(writer), lines),
        depth(*old(writer)) > 0,
    ensures
        has_lines(*final(writer), lines.push(closing((depth(*old(writer)) - 1) as nat, name@))),
        depth(*final(writer)) == depth(*old(writer)) - 1,
{
    proof {
        lemma_line_added(
            lines,
            (depth(*writer) - 1) as nat,
            seq!['<', '/'] + name@ + seq!['>'],
        );
    }
    write_close(writer, name);
}

/// Writes an element without children.
fn write_element(
    writer: &mut DocumentWriter,
    name: &str,
    attributes: &str,
    Ghost(lines): Ghost<Seq<Seq<char>>>,
)
    requires
        has_lines(*old(writer), lines),
    ensures
        has_lines(
            *final(writer),
            lines + element_lines(depth(*old(writer)), name@, attributes@),
        ),
        depth(*final(writer)) == depth(*old(writer)),
{
    let ghost level = depth(*writer);
    put_open(writer, concat2(name, attributes).as_str(), Ghost(lines));
    put_close(writer, name, Ghost(lines.push(opening(level, name@, attributes@))));
    assert(lines.push(opening(level, name@, attributes@)).push(closing(level, name@)) =~= lines
        + element_lines(level, name@, attributes@));
}

/// Adds an attribute to those of an element.
fn populate(attributes: &mut String, key: &str, value: &str)
    ensures
        final(attributes)@ == old(attributes)@ + attribute_text(key@, value@),
{
    let ghost before = attributes@;
    attributes.append(" ");
    attributes.append(key);
    attributes.append("=\"");
    attributes.append(value);
    attributes.append("\"");
    assert(attributes@ =~= before + attribute_text(key@, value@));
}

/// Adds an attribute to those of an element, where it has a value.
fn populate_from_option(attributes: &mut String, key: &str, value: &Option<String>)
    ensures
        final(attributes)@ == old(attributes)@ + option_text(key@, value.deep_view()),
{
    match value {
        Some(value) => populate(attributes, key, value.as_str()),
        None => {
            assert(attributes@ =~= attributes@ + option_text(key@, None));
        },
    }
}

/// A truth value as text.
fn boolean_string(value: Option<bool>) -> (r: Option<String>)
    ensures
        r.deep_view() == boolean_text(value),
{
    match value {
        Some(b) => Some(
            if b {
                "true".to_owned()
            } else {
                "false".to_owned()
            },
        ),
        None => None,
    }
}

/// A number as text.
fn number_string(value: Option<u32>) -> (r: Option<String>)
    ensures
        r.deep_view() == number_text(value),
{
    match value {
        Some(n) => Some(decimal_of(n as u64)),
        None => None,
    }
}

/// The attributes of a remote.
fn remote_string(remote: &Remote) -> (r: String)
    ensures
        r@ == remote_attributes(remote@),
{
    let mut r: String = String::new();
    populate(&mut r, "name", remote.name.as_str());
    populate(&mut r, "fetch", remote.fetch.as_str());
    populate_from_option(&mut r, "alias", &remote.alias);
    populate_from_option(&mut r, "review", &remote.review);
    assert(r@ =~= remote_attributes(remote@));
    r
}

/// The attributes of the default.
fn default_string(default: &crate::manifest::Default) -> (r: String)
    ensures
        r@ == default_attributes(default@),
{
    let mut r: String = String::new();
    populate_from_option(&mut r, "revision", &default.revision);
    populate_from_option(&mut r, "remote", &default.remote);
    populate_from_option(&mut r, "sync-j", &number_string(default.sync_j));
    populate_from_option(&mut r, "sync-c", &boolean_string(default.sync_c));
    assert(r@ =~= default_attributes(default@));
    r
}

/// The attributes of a project.
fn project_string(project: &Project) -> (r: String)
    ensures
        r@ == project_attributes(project@),
{
    let mut r: String = String::new();
    populate(&mut r, "name", project.name.as_str());
    populate_from_option(&mut r, "path", &project.path);
    populate_from_option(&mut r, "remote", &project.remote);
    populate_from_option(&mut r, "revision", &project.revision);
    populate_from_option(&mut r, "dest-branch", &project.dest_branch);
    populate_from_option(&mut r, "sync-c", &boolean_string(project.sync_c));
    populate_from_option(&mut r, "clone-depth", &number_string(project.clone_depth));
    let groups: Option<String> = match &project.groups {
        Some(groups) => Some(join(groups, ",")),
        None => None,
    };
    populate_from_option(&mut r, "groups", &groups);
    assert(r@ =~= project_attributes(project@));
    r
}

/// Writes a file operation.
fn write_operation(
    writer: &mut DocumentWriter,
    operation: &FileOperation,
    Ghost(lines): Ghost<Seq<Seq<char>>>,
)
    requires
        has_lines(*old(writer), lines),
        depth(*old(writer)) == 2,
    ensures
        has_lines(*final(writer), lines + operation_lines(operation@)),
        depth(*final(writer)) == 2,
{
    let mut attributes: String = String::new();
    populate(&mut attributes, "src", operation.src());
    populate(&mut attributes, "dest", operation.dst());
    assert(attributes@ =~= attribute_text(
        "src"@,
        crate::manifest::operation_src(operation@),
    ) + attribute_text("dest"@, crate::manifest::operation_dst(operation@)));
    match operation {
        FileOperation::LinkFile { .. } => write_element(
            writer,
            "linkfile",
            attributes.as_str(),
            Ghost(lines),
        ),
        FileOperation::CopyFile { .. } => write_element(
            writer,
            "copyfile",
            attributes.as_str(),
            Ghost(lines),
        ),
    }
}

/// Writes a project.
fn write_project(
    writer: &mut DocumentWriter,
    project: &Project,
    Ghost(lines): Ghost<Seq<Seq<char>>>,
)
    requires
        has_lines(*old(writer), lines),
        depth(*old(writer)) == 1,
    ensures
        has_lines(*final(writer), lines + project_lines(project@)),
        depth(*final(writer)) == 1,
{
    let attributes: String = project_string(project);
    put_open(writer, concat2("project", attributes.as_str()).as_str(), Ghost(lines));
    let ghost opened = lines.push(opening(1, "project"@, attributes@));
    let ghost all = project.file_operations.deep_view();
    let mut i: usize = 0;
    assert(opened + operations_lines(all.take(0)) =~= opened);
    while i < project.file_operations.len()
        invariant
            i <= project.file_operations.len(),
            all == project.file_operations.deep_view(),
            has_lines(*writer, opened + operations_lines(all.take(i as int))),
            depth(*writer) == 2,
        decreases project.file_operations.len() - i,
    {
        assert(all[i as int] == project.file_operations@[i as int]@);
        assert(all.take(i + 1).drop_last() =~= all.take(i as int));
        let ghost before = opened + operations_lines(all.take(i as int));
        write_operation(writer, &project.file_operations[i], Ghost(before));
        assert(before + operation_lines(all[i as int]) =~= opened + operations_lines(
            all.take(i + 1),
        ));
        i += 1;
    }
    assert(all.take(all.len() as int) =~= all);
    let ghost before = opened + operations_lines(all);
    put_close(writer, "project", Ghost(before));
    assert(before.push(closing(1, "project"@)) =~= lines + project_lines(project@));
}

/// Writes a manifest as a document.
pub fn serialize(manifest: &Manifest) -> (r: String)
    ensures
        r@ == serialized(manifest@),
{
    let mut writer: DocumentWriter = new_document();
    write_open(&mut writer, "manifest");
    let ghost first = seq![opening(0, "manifest"@, Seq::empty())];
    assert(written(writer) =~= join_with(first, seq!['\n'])) by {
        assert("manifest"@ + Seq::<char>::empty() =~= "manifest"@);
    }
    let ghost remotes = manifest@.remotes;
    let mut i: usize = 0;
    assert(first + remotes_lines(remotes.take(0)) =~= first);
    while i < manifest.remotes.len()
        invariant
            i <= remotes.len(),
            remotes == manifest@.remotes,
            has_lines(writer, first + remotes_lines(remotes.take(i as int))),
            depth(writer) == 1,
        decreases remotes.len() - i,
    {
        assert(remotes.take(i + 1).drop_last() =~= remotes.take(i as int));
        let ghost before = first + remotes_lines(remotes.take(i as int));
        let attributes: String = remote_string(manifest.remotes.at(i));
        write_element(&mut writer, "remote", attributes.as_str(), Ghost(before));
        assert(before + element_lines(1, "remote"@, attributes@) =~= first + remotes_lines(
            remotes.take(i + 1),
        ));
        i += 1;
    }
    assert(remotes.take(remotes.len() as int) =~= remotes);
    let ghost lines = first + remotes_lines(remotes);
    match &manifest.default {
        Some(default) => {
            let attributes: String = default_string(default);
            write_element(&mut writer, "default", attributes.as_str(), Ghost(lines));
        },
        None => {
            assert(lines + default_lines(None) =~= lines);
        },
    }
    let ghost lines = lines + default_lines(manifest@.default);
    match &manifest.manifest_server {
        Some(server) => {
            let mut attributes: String = String::new();
            populate(&mut attributes, "url", server.url.as_str());
            assert(attributes@ =~= attribute_text("url"@, server.url@));
            write_element(&mut writer, "manifest-server", attributes.as_str(), Ghost(lines));
        },
        None => {
            assert(lines + server_lines(None) =~= lines);
        },
    }
    let ghost lines = lines + server_lines(manifest@.manifest_server);
    match &manifest.repo_hooks {
        Some(hooks) => {
            let mut attributes: String = String::new();
            populate_from_option(&mut attributes, "in-project", &hooks.in_project);
            populate_from_option(&mut attributes, "enabled-list", &hooks.enabled_list);
            assert(attributes@ =~= hooks_attributes(hooks@));
            write_element(&mut writer, "repo-hooks", attributes.as_str(), Ghost(lines));
        },
        None => {
            assert(lines + hooks_lines(None) =~= lines);
        },
    }
    let ghost lines = lines + hooks_lines(manifest@.repo_hooks);
    let ghost projects = manifest@.projects;
    let mut k: usize = 0;
    assert(lines + projects_lines(projects.take(0)) =~= lines);
    while k < manifest.projects.len()
        invariant
            k <= projects.len(),
            projects == manifest@.projects,
            has_lines(writer, lines + projects_lines(projects.take(k as int))),
            depth(writer) == 1,
        decreases projects.len() - k,
    {
        assert(projects.take(k + 1).drop_last() =~= projects.take(k as int));
        let ghost before = lines + projects_lines(projects.take(k as int));
        write_project(&mut writer, &manifest.projects.at(k).project, Ghost(before));
        assert(before + project_lines(projects[k as int].1) =~= lines + projects_lines(
            projects.take(k + 1),
        ));
        k += 1;
    }
    assert(projects.take(projects.len() as int) =~= projects);
    let ghost lines = lines + projects_lines(projects);
    put_close(&mut writer, "manifest", Ghost(lines));
    assert(lines.push(closing(0, "manifest"@)) =~= manifest_lines(manifest@));
    finish_document(writer)
}

impl Manifest {
    /// Writes the manifest as a document.
    pub fn serialize(&self) -> (r: String)
        ensures
            r@ == serialized(self@),
    {
        serialize(self)
    }
}

} // verus!
