//! What is written of a manifest.
use vstd::prelude::*;

use crate::manifest::serializer::{
    default_attributes, default_lines, element_lines, hooks_attributes, hooks_lines,
    manifest_lines, operation_lines, project_attributes, project_lines, projects_lines,
    remote_attributes, remotes_lines, serialized, server_lines,
};
use crate::manifest::{
    empty_manifest, DefaultView, FileOperationView, ManifestView, ProjectView, RemoteView,
    RepoHooksView, SuperProjectView,
};
use crate::markup::{attribute_text, closing, opening};
use crate::text::{decimal, law_split_of_join, split_on};

verus! {

/// An attribute is written as a blank, its key and its value in quotes, and nothing of the value
/// changes.
pub proof fn law_attribute_as_written(key: Seq<char>, value: Seq<char>)
    ensures
        attribute_text(key, value) == seq![' '] + key + seq!['=', '"'] + value + seq!['"'],
{
    reveal_strlit(" ");
    reveal_strlit("=\"");
    reveal_strlit("\"");
    assert(attribute_text(key, value) =~= seq![' '] + key + seq!['=', '"'] + value + seq!['"']);
}

/// A tag stands in angle brackets behind four blanks for each element around it, and what closes it
/// has a `/` in front of the name.
pub proof fn law_tags_as_written(level: nat, name: Seq<char>, attributes: Seq<char>)
    ensures
        opening(level, name, attributes) == Seq::new(4 * level, |i: int| ' ') + seq!['<'] + name
            + attributes + seq!['>'],
        closing(level, name) == Seq::new(4 * level, |i: int| ' ') + seq!['<', '/'] + name + seq![
            '>',
        ],
{
    assert(opening(level, name, attributes) =~= Seq::new(4 * level, |i: int| ' ') + seq!['<'] + name
        + attributes + seq!['>']);
    assert(closing(level, name) =~= Seq::new(4 * level, |i: int| ' ') + seq!['<', '/'] + name + seq![
        '>',
    ]);
}

/// Of a remote its name and its URL are written, and each of the alias and the address of its
/// review exactly where there is one, whether or not there is the other.
pub proof fn law_remote_as_written(remote: RemoteView, alias: Seq<char>, review: Seq<char>)
    ensures
        ({
            let plain = attribute_text("name"@, remote.name) + attribute_text(
                "fetch"@,
                remote.fetch,
            );
            let aliased = plain + attribute_text("alias"@, alias);
            &&& remote_attributes((RemoteView { alias: None, review: None, ..remote })) == plain
            &&& remote_attributes((RemoteView { alias: Some(alias), review: None, ..remote }))
                == aliased
            &&& remote_attributes((RemoteView { alias: None, review: Some(review), ..remote }))
                == plain + attribute_text("review"@, review)
            &&& remote_attributes(
                (RemoteView { alias: Some(alias), review: Some(review), ..remote }),
            ) == aliased + attribute_text("review"@, review)
        }),
{
    let none = Seq::<char>::empty();
    let plain = attribute_text("name"@, remote.name) + attribute_text("fetch"@, remote.fetch);
    let aliased = plain + attribute_text("alias"@, alias);
    assert(plain + none =~= plain);
    assert(aliased + none =~= aliased);
}

/// Of the default each of its values is written exactly where there is one, whichever of the others
/// there are.
pub proof fn law_default_as_written(default: DefaultView)
    ensures
        ({
            let bare = DefaultView { revision: None, remote: None, sync_j: None, sync_c: None };
            let first = DefaultView { revision: default.revision, ..bare };
            let second = DefaultView { remote: default.remote, ..first };
            let third = DefaultView { sync_j: default.sync_j, ..second };
            &&& default_attributes(bare) == Seq::<char>::empty()
            &&& default_attributes(first) == match default.revision {
                Some(revision) => attribute_text("revision"@, revision),
                None => Seq::empty(),
            }
            &&& default_attributes(second) == default_attributes(first) + match default.remote {
                Some(remote) => attribute_text("remote"@, remote),
                None => Seq::empty(),
            }
            &&& default_attributes(third) == default_attributes(second) + match default.sync_j {
                Some(n) => attribute_text("sync-j"@, decimal(n as int)),
                None => Seq::empty(),
            }
            &&& default_attributes(default) == default_attributes(third) + match default.sync_c {
                Some(true) => attribute_text("sync-c"@, "true"@),
                Some(false) => attribute_text("sync-c"@, "false"@),
                None => Seq::empty(),
            }
        }),
{
    let none = Seq::<char>::empty();
    let bare = DefaultView { revision: None, remote: None, sync_j: None, sync_c: None };
    let first = DefaultView { revision: default.revision, ..bare };
    let second = DefaultView { remote: default.remote, ..first };
    let third = DefaultView { sync_j: default.sync_j, ..second };
    assert(default_attributes(bare) =~= none);
    assert(default_attributes(first) =~= match default.revision {
        Some(revision) => attribute_text("revision"@, revision),
        None => none,
    });
    assert(default_attributes(second) =~= default_attributes(first) + match default.remote {
        Some(remote) => attribute_text("remote"@, remote),
        None => none,
    });
    assert(default_attributes(third) =~= default_attributes(second) + match default.sync_j {
        Some(n) => attribute_text("sync-j"@, decimal(n as int)),
        None => none,
    });
    assert(default_attributes(default) =~= default_attributes(third) + match default.sync_c {
        Some(true) => attribute_text("sync-c"@, "true"@),
        Some(false) => attribute_text("sync-c"@, "false"@),
        None => none,
    });
}

/// Of the hooks each of the two values is written exactly where there is one.
pub proof fn law_hooks_as_written(project: Seq<char>, list: Seq<char>)
    ensures
        hooks_attributes((RepoHooksView { in_project: None, enabled_list: None })) == Seq::<
            char,
        >::empty(),
        hooks_attributes((RepoHooksView { in_project: Some(project), enabled_list: None }))
            == attribute_text("in-project"@, project),
        hooks_attributes((RepoHooksView { in_project: None, enabled_list: Some(list) }))
            == attribute_text("enabled-list"@, list),
        hooks_attributes((RepoHooksView { in_project: Some(project), enabled_list: Some(list) }))
            == attribute_text("in-project"@, project) + attribute_text("enabled-list"@, list),
{
    let none = Seq::<char>::empty();
    assert(none + none =~= none);
    assert(attribute_text("in-project"@, project) + none =~= attribute_text(
        "in-project"@,
        project,
    ));
    assert(none + attribute_text("enabled-list"@, list) =~= attribute_text(
        "enabled-list"@,
        list,
    ));
}

/// A file of a project is written as an element of its own inside the project, as a copy or as a
/// link, whichever it is, with where it comes from and where it goes.
pub proof fn law_operation_as_written(src: Seq<char>, dst: Seq<char>)
    ensures
        ({
            let places = attribute_text("src"@, src) + attribute_text("dest"@, dst);
            let link = FileOperationView::LinkFile { src, dst };
            let copy = FileOperationView::CopyFile { src, dst };
            &&& operation_lines(link) == seq![
                opening(2, "linkfile"@, places),
                closing(2, "linkfile"@),
            ]
            &&& operation_lines(copy) == seq![
                opening(2, "copyfile"@, places),
                closing(2, "copyfile"@),
            ]
        }),
{
}

/// The lines with others behind the first `at`.
pub open spec fn with_lines(lines: Seq<Seq<char>>, at: int, added: Seq<Seq<char>>) -> Seq<
    Seq<char>,
> {
    lines.take(at) + added + lines.skip(at)
}

/// A project is written as an element with each of its files inside, in order.
pub proof fn law_project_as_written(project: ProjectView, operation: FileOperationView)
    ensures
        ({
            let bare = ProjectView { file_operations: Seq::empty(), ..project };
            let more = ProjectView {
                file_operations: project.file_operations.push(operation),
                ..project
            };
            &&& project_lines(bare) == seq![
                opening(1, "project"@, project_attributes(project)),
                closing(1, "project"@),
            ]
            &&& project_lines(more) == with_lines(
                project_lines(project),
                project_lines(project).len() - 1,
                operation_lines(operation),
            )
        }),
{
    let bare = ProjectView { file_operations: Seq::empty(), ..project };
    let more = ProjectView {
        file_operations: project.file_operations.push(operation),
        ..project
    };
    assert(project_attributes(bare) == project_attributes(project));
    assert(project_attributes(more) == project_attributes(project));
    assert(project_lines(bare) =~= seq![
        opening(1, "project"@, project_attributes(project)),
        closing(1, "project"@),
    ]);
    assert(project.file_operations.push(operation).drop_last() =~= project.file_operations);
    let lines = project_lines(project);
    assert(project_lines(more) =~= with_lines(lines, lines.len() - 1, operation_lines(operation)));
}

/// There are two lines for each remote.
proof fn lemma_remotes_length(remotes: Seq<RemoteView>)
    ensures
        remotes_lines(remotes).len() == 2 * remotes.len(),
    decreases remotes.len(),
{
    if remotes.len() > 0 {
        lemma_remotes_length(remotes.drop_last());
    }
}

/// Every remote of a manifest is written, in order and before all else.
pub proof fn law_every_remote_is_written(manifest: ManifestView, remote: RemoteView)
    ensures
        manifest_lines((ManifestView { remotes: manifest.remotes.push(remote), ..manifest }))
            == with_lines(
            manifest_lines(manifest),
            1 + 2 * manifest.remotes.len() as int,
            seq![opening(1, "remote"@, remote_attributes(remote)), closing(1, "remote"@)],
        ),
{
    let more = ManifestView { remotes: manifest.remotes.push(remote), ..manifest };
    let added = seq![opening(1, "remote"@, remote_attributes(remote)), closing(1, "remote"@)];
    lemma_remotes_length(manifest.remotes);
    assert(manifest.remotes.push(remote).drop_last() =~= manifest.remotes);
    assert(remotes_lines(more.remotes) =~= remotes_lines(manifest.remotes) + added);
    assert(manifest_lines(more) =~= with_lines(
        manifest_lines(manifest),
        1 + 2 * manifest.remotes.len() as int,
        added,
    ));
}

/// Every project of a manifest is written, in order and behind all else.
pub proof fn law_every_project_is_written(
    manifest: ManifestView,
    entry: (Seq<char>, ProjectView),
)
    ensures
        manifest_lines((ManifestView { projects: manifest.projects.push(entry), ..manifest }))
            == with_lines(
            manifest_lines(manifest),
            manifest_lines(manifest).len() - 1,
            project_lines(entry.1),
        ),
{
    let more = ManifestView { projects: manifest.projects.push(entry), ..manifest };
    assert(manifest.projects.push(entry).drop_last() =~= manifest.projects);
    let lines = manifest_lines(manifest);
    assert(manifest_lines(more) =~= with_lines(lines, lines.len() - 1, project_lines(entry.1)));
}

/// Lines among others.
proof fn lemma_lines_among(
    a: Seq<Seq<char>>,
    added: Seq<Seq<char>>,
    b: Seq<Seq<char>>,
    c: Seq<Seq<char>>,
    d: Seq<Seq<char>>,
    e: Seq<Seq<char>>,
)
    ensures
        a + added + b + c + d + e == with_lines(
            a + Seq::empty() + b + c + d + e,
            a.len() as int,
            added,
        ),
{
    let whole = a + Seq::empty() + b + c + d + e;
    assert(whole.take(a.len() as int) =~= a);
    assert(whole.skip(a.len() as int) =~= b + c + d + e);
    assert(a + added + b + c + d + e =~= a + added + (b + c + d + e));
}

/// The default, the manifest server and the hooks are written exactly where there are any, each
/// whether or not there are the others, and in this order.
pub proof fn law_settings_as_written(
    manifest: ManifestView,
    default: DefaultView,
    url: Seq<char>,
    hooks: RepoHooksView,
)
    ensures
        ({
            let remotes: int = 1 + 2 * manifest.remotes.len() as int;
            let defaults: int = remotes + (if manifest.default is Some {
                2int
            } else {
                0
            });
            let servers: int = defaults + (if manifest.manifest_server is Some {
                2int
            } else {
                0
            });
            &&& manifest_lines((ManifestView { default: Some(default), ..manifest })) == with_lines(
                manifest_lines((ManifestView { default: None, ..manifest })),
                remotes,
                seq![
                    opening(1, "default"@, default_attributes(default)),
                    closing(1, "default"@),
                ],
            )
            &&& manifest_lines((ManifestView { manifest_server: Some(url), ..manifest }))
                == with_lines(
                manifest_lines((ManifestView { manifest_server: None, ..manifest })),
                defaults,
                seq![
                    opening(1, "manifest-server"@, attribute_text("url"@, url)),
                    closing(1, "manifest-server"@),
                ],
            )
            &&& manifest_lines((ManifestView { repo_hooks: Some(hooks), ..manifest }))
                == with_lines(
                manifest_lines((ManifestView { repo_hooks: None, ..manifest })),
                servers,
                seq![
                    opening(1, "repo-hooks"@, hooks_attributes(hooks)),
                    closing(1, "repo-hooks"@),
                ],
            )
        }),
{
    lemma_remotes_length(manifest.remotes);
    let none = Seq::<Seq<char>>::empty();
    let remotes = seq![opening(0, "manifest"@, Seq::empty())] + remotes_lines(manifest.remotes);
    let defaults = default_lines(manifest.default);
    let servers = server_lines(manifest.manifest_server);
    let hooked = hooks_lines(manifest.repo_hooks);
    let projects = projects_lines(manifest.projects);
    let end = seq![closing(0, "manifest"@)];
    let one = element_lines(1, "default"@, default_attributes(default));
    lemma_lines_among(remotes, one, servers, hooked, projects, end);
    let two = element_lines(1, "manifest-server"@, attribute_text("url"@, url));
    lemma_lines_among(remotes + defaults, two, none, hooked, projects, end);
    assert(remotes + defaults + two + none =~= remotes + defaults + two);
    assert(remotes + defaults + none + none =~= remotes + defaults + none);
    let three = element_lines(1, "repo-hooks"@, hooks_attributes(hooks));
    lemma_lines_among(remotes + defaults + servers, three, none, none, projects, end);
    assert(remotes + defaults + servers + three + none + none =~= remotes + defaults + servers
        + three);
    assert(remotes + defaults + servers + none + none + none =~= remotes + defaults + servers
        + none);
}

/// A manifest that says nothing is one empty element, and the superproject, the contact and what a
/// remote's revision is are not written.
pub proof fn law_unwritten_parts(
    manifest: ManifestView,
    superproject: Option<SuperProjectView>,
    contact: Option<Seq<char>>,
    remote: RemoteView,
    revision: Option<Seq<char>>,
)
    ensures
        manifest_lines(empty_manifest()) == seq![
            opening(0, "manifest"@, Seq::empty()),
            closing(0, "manifest"@),
        ],
        manifest_lines(
            (ManifestView { superproject, contactinfo: contact, ..manifest }),
        ) == manifest_lines(manifest),
        remote_attributes((RemoteView { revision, ..remote })) == remote_attributes(remote),
{
    assert(manifest_lines(empty_manifest()) =~= seq![
        opening(0, "manifest"@, Seq::empty()),
        closing(0, "manifest"@),
    ]);
}

/// The document holds the lines one after another, each on its own: they can be read from it again,
/// where no line has a break inside.
pub proof fn law_document_holds_lines(manifest: ManifestView)
    requires
        forall|i: int|
            0 <= i < manifest_lines(manifest).len() ==> !(#[trigger] manifest_lines(
                manifest,
            )[i]).contains('\n'),
    ensures
        split_on(serialized(manifest), '\n') == manifest_lines(manifest),
{
    law_split_of_join(manifest_lines(manifest), '\n');
}

} // verus!
