//! Making a manifest from what its documents say, one file after another.
use vstd::prelude::*;

use crate::manifest::collections::{
    distinct_names, entry_at, law_entry_keeps_order, lemma_entries_before, ordered_paths,
    remote_named, with_entry,
};
use crate::manifest::parser::{
    file_read, parse_impl, FileRead, FileView, Item, ItemView, ParseError, ParseErrorView, Slot,
    Warning, WarningView,
};
use crate::manifest::readback::{law_text_reads_back, readable_text, written_part};
use crate::manifest::serializer::serialized;
use crate::manifest::{
    empty_manifest, project_path, Manifest, ManifestView, Project, Remote, RemoteView,
};
use crate::text::text_bytes;
use crate::xml::reads_tags;

verus! {

/// The manifest has been given this already.
pub open spec fn is_set(manifest: ManifestView, slot: Slot) -> bool {
    match slot {
        Slot::Default => manifest.default is Some,
        Slot::ManifestServer => manifest.manifest_server is Some,
        Slot::SuperProject => manifest.superproject is Some,
        Slot::ContactInfo => manifest.contactinfo is Some,
        Slot::RepoHooks => manifest.repo_hooks is Some,
    }
}

/// The manifest after one more thing has been said, or why it cannot be said.
pub open spec fn with_item(manifest: ManifestView, item: ItemView) -> Result<
    ManifestView,
    ParseErrorView,
> {
    match item {
        ItemView::Warning(_) => Ok(manifest),
        ItemView::Include(_) => Ok(manifest),
        ItemView::Remote(remote) => if remote_named(manifest.remotes, remote.name) is Some {
            Err(ParseErrorView::DuplicateRemote { remote: remote.name })
        } else {
            Ok(ManifestView { remotes: manifest.remotes.push(remote), ..manifest })
        },
        ItemView::Project(project) => if entry_at(
            manifest.projects,
            project_path(project),
        ) is Some {
            Err(ParseErrorView::DuplicateProject { path: project_path(project) })
        } else {
            Ok(
                ManifestView {
                    projects: with_entry(manifest.projects, project_path(project), project),
                    ..manifest
                },
            )
        },
        ItemView::Claim(slot) => if is_set(manifest, slot) {
            Err(ParseErrorView::AlreadySet { slot })
        } else {
            Ok(manifest)
        },
        ItemView::Default(default) => Ok(ManifestView { default: Some(default), ..manifest }),
        ItemView::ManifestServer(url) => Ok(
            ManifestView { manifest_server: Some(url), ..manifest },
        ),
        ItemView::SuperProject(superproject) => Ok(
            ManifestView { superproject: Some(superproject), ..manifest },
        ),
        ItemView::ContactInfo(url) => Ok(ManifestView { contactinfo: Some(url), ..manifest }),
        ItemView::RepoHooks(hooks) => Ok(ManifestView { repo_hooks: Some(hooks), ..manifest }),
    }
}

/// Remotes have distinct names, projects are in the order of their paths, and each is at its own
/// path.
pub open spec fn consistent(manifest: ManifestView) -> bool {
    &&& distinct_names(manifest.remotes)
    &&& ordered_paths(manifest.projects)
    &&& forall|i: int|
        0 <= i < manifest.projects.len() ==> (#[trigger] manifest.projects[i]).0 == project_path(
            manifest.projects[i].1,
        )
}

/// Whatever is said to a consistent manifest, it stays consistent.
pub proof fn law_item_keeps_consistent(manifest: ManifestView, item: ItemView)
    requires
        consistent(manifest),
    ensures
        with_item(manifest, item) matches Ok(after) ==> consistent(after),
{
    match item {
        ItemView::Remote(remote) => {
            if remote_named(manifest.remotes, remote.name) is None {
                let holds = |r: RemoteView| r.name == remote.name;
                crate::lists::law_find_first(manifest.remotes, holds);
                assert forall|i: int| 0 <= i < manifest.remotes.len() implies #[trigger]
                    manifest.remotes[i].name != remote.name by {
                    assert(!holds(manifest.remotes[i]));
                }
            }
        },
        ItemView::Project(project) => {
            let path = project_path(project);
            if entry_at(manifest.projects, path) is None {
                law_entry_keeps_order(manifest.projects, path, project);
                lemma_entries_before(manifest.projects, path);
                let all = with_entry(manifest.projects, path, project);
                let n = crate::manifest::collections::entries_before(
                    manifest.projects,
                    path,
                ) as int;
                assert forall|i: int| 0 <= i < all.len() implies (#[trigger] all[i]).0
                    == project_path(all[i].1) by {
                    if i < n {
                        assert(all[i] == manifest.projects[i]);
                    } else if i > n {
                        assert(all[i] == manifest.projects[i - 1]);
                    }
                }
            }
        },
        _ => {},
    }
}

/// A manifest in the making: what it holds, what was odd so far, and what the files that are being
/// read have yet to say, the innermost last.
#[verifier::ext_equal]
pub struct BuilderView {
    pub manifest: ManifestView,
    pub warnings: Seq<WarningView>,
    pub pending: Seq<FileView>,
}

/// What has to happen next.
pub enum Progress {
    /// The file of this name is included and has to be supplied.
    NeedFile(String),
    /// All has been said.
    Done,
    /// The manifest is refused.
    Failed(ParseError),
}

/// What has to happen next, as a value.
pub enum ProgressView {
    NeedFile(Seq<char>),
    Done,
    Failed(ParseErrorView),
}

impl View for Progress {
    type V = ProgressView;

    open spec fn view(&self) -> ProgressView {
        match self {
            Progress::NeedFile(name) => ProgressView::NeedFile(name@),
            Progress::Done => ProgressView::Done,
            Progress::Failed(error) => ProgressView::Failed(error@),
        }
    }
}

/// How much there is left to say.
pub open spec fn work(pending: Seq<FileView>) -> nat
    decreases pending.len(),
{
    if pending.len() == 0 {
        0
    } else {
        work(pending.drop_last()) + pending.last().items.len() + 1
    }
}

/// The files without the next thing that the innermost has to say.
pub open spec fn without_next(pending: Seq<FileView>) -> Seq<FileView> {
    pending.drop_last().push(
        FileView { items: pending.last().items.drop_first(), error: pending.last().error },
    )
}

/// Saying one thing leaves less to say.
pub proof fn lemma_less_work(pending: Seq<FileView>)
    requires
        pending.len() > 0,
    ensures
        pending.last().items.len() > 0 ==> work(without_next(pending)) < work(pending),
        work(pending.drop_last()) < work(pending),
{
    assert(without_next(pending).drop_last() =~= pending.drop_last());
}

/// The builder after all has been said that can be said before another file is needed.
pub open spec fn advanced(builder: BuilderView) -> (BuilderView, ProgressView)
    decreases work(builder.pending),
{
    let pending = builder.pending;
    if pending.len() == 0 {
        (builder, ProgressView::Done)
    } else {
        proof {
            lemma_less_work(pending);
        }
        let file = pending.last();
        if file.items.len() == 0 {
            let left = BuilderView { pending: pending.drop_last(), ..builder };
            match file.error {
                Some(error) => (left, ProgressView::Failed(error)),
                None => advanced(left),
            }
        } else {
            let left = BuilderView { pending: without_next(pending), ..builder };
            match file.items[0] {
                ItemView::Include(name) => (left, ProgressView::NeedFile(name)),
                ItemView::Warning(warning) => advanced(
                    BuilderView { warnings: builder.warnings.push(warning), ..left },
                ),
                item => match with_item(builder.manifest, item) {
                    Ok(manifest) => advanced(BuilderView { manifest, ..left }),
                    Err(error) => (left, ProgressView::Failed(error)),
                },
            }
        }
    }
}

/// The builder with one more file to read.
pub open spec fn supplied_with(builder: BuilderView, file: FileView) -> BuilderView {
    BuilderView { pending: builder.pending.push(file), ..builder }
}

/// The builder with one more document to read.
pub open spec fn supplied(builder: BuilderView, document: Seq<u8>) -> BuilderView {
    supplied_with(builder, file_read(document))
}

/// A builder that has one file to read.
pub open spec fn begun_with(file: FileView) -> BuilderView {
    BuilderView { manifest: empty_manifest(), warnings: Seq::empty(), pending: seq![file] }
}

/// A builder that has one document to read.
pub open spec fn begun(document: Seq<u8>) -> BuilderView {
    begun_with(file_read(document))
}

/// The builder after the files that it asks for have been supplied in turn.
pub open spec fn advanced_with(builder: BuilderView, included: Seq<Seq<u8>>) -> (
    BuilderView,
    ProgressView,
)
    decreases included.len(),
{
    let now = advanced(builder);
    if now.1 is NeedFile && included.len() > 0 {
        advanced_with(supplied(now.0, included[0]), included.drop_first())
    } else {
        now
    }
}

/// However far it has got, a manifest in the making is consistent.
pub proof fn law_builder_consistent(builder: BuilderView)
    requires
        consistent(builder.manifest),
    ensures
        consistent(advanced(builder).0.manifest),
    decreases work(builder.pending),
{
    let pending = builder.pending;
    if pending.len() > 0 {
        lemma_less_work(pending);
        let file = pending.last();
        if file.items.len() == 0 {
            law_builder_consistent(BuilderView { pending: pending.drop_last(), ..builder });
        } else {
            let left = BuilderView { pending: without_next(pending), ..builder };
            law_item_keeps_consistent(builder.manifest, file.items[0]);
            match file.items[0] {
                ItemView::Include(_) => {},
                ItemView::Warning(warning) => {
                    law_builder_consistent(
                        BuilderView { warnings: builder.warnings.push(warning), ..left },
                    );
                },
                item => match with_item(builder.manifest, item) {
                    Ok(manifest) => {
                        law_builder_consistent(BuilderView { manifest, ..left });
                    },
                    Err(_) => {},
                },
            }
        }
    }
}

/// A manifest that was read is consistent, whatever its documents are.
pub proof fn law_parsed_consistent(builder: BuilderView, included: Seq<Seq<u8>>)
    requires
        consistent(builder.manifest),
    ensures
        consistent(advanced_with(builder, included).0.manifest),
    decreases included.len(),
{
    law_builder_consistent(builder);
    let now = advanced(builder);
    if now.1 is NeedFile && included.len() > 0 {
        law_parsed_consistent(supplied(now.0, included[0]), included.drop_first());
    }
}

/// A builder that is done or has failed asks for nothing more: further files change nothing.
pub proof fn law_unasked_files_ignored(
    builder: BuilderView,
    included: Seq<Seq<u8>>,
    more: Seq<Seq<u8>>,
)
    requires
        !(advanced_with(builder, included).1 is NeedFile),
    ensures
        advanced_with(builder, included + more) == advanced_with(builder, included),
    decreases included.len(),
{
    let now = advanced(builder);
    if now.1 is NeedFile && included.len() > 0 {
        law_unasked_files_ignored(supplied(now.0, included[0]), included.drop_first(), more);
        assert((included + more).drop_first() =~= included.drop_first() + more);
        assert((included + more)[0] == included[0]);
    }
}

/// What a file has yet to say.
struct PendingFile {
    /// The items, the next one last.
    reversed: Vec<Item>,
    error: Option<ParseError>,
}

impl View for PendingFile {
    type V = FileView;

    closed spec fn view(&self) -> FileView {
        FileView {
            items: self.reversed.deep_view().reverse(),
            error: match self.error {
                Some(e) => Some(e@),
                None => None,
            },
        }
    }
}

impl DeepView for PendingFile {
    type V = FileView;

    closed spec fn deep_view(&self) -> FileView {
        self@
    }
}

/// What a file says, to be taken one by one.
fn pending_from(read: FileRead) -> (r: PendingFile)
    ensures
        r@ == read@,
{
    let ghost whole = read@;
    let mut items: Vec<Item> = read.items;
    let mut reversed: Vec<Item> = Vec::new();
    assert(items.deep_view() + reversed.deep_view().reverse() =~= whole.items);
    while items.len() > 0
        invariant
            items.deep_view() + reversed.deep_view().reverse() == whole.items,
        decreases items.len(),
    {
        let ghost front = items.deep_view();
        let ghost back = reversed.deep_view();
        match items.pop() {
            Some(item) => {
                assert(item@ == front.last());
                assert(items.deep_view() =~= front.drop_last());
                reversed.push(item);
                assert(reversed.deep_view() =~= back.push(front.last()));
                assert(reversed.deep_view().reverse() =~= seq![front.last()] + back.reverse());
                assert(items.deep_view() + reversed.deep_view().reverse() =~= front
                    + back.reverse());
            },
            None => {},
        }
    }
    assert(items.deep_view() =~= Seq::empty());
    let r: PendingFile = PendingFile { reversed, error: read.error };
    assert(r@.items =~= whole.items);
    r
}

/// A manifest in the making.
pub struct ManifestBuilder {
    manifest: Manifest,
    warnings: Vec<Warning>,
    pending: Vec<PendingFile>,
}

impl View for ManifestBuilder {
    type V = BuilderView;

    closed spec fn view(&self) -> BuilderView {
        BuilderView {
            manifest: self.manifest@,
            warnings: self.warnings.deep_view(),
            pending: self.pending.deep_view(),
        }
    }
}

/// Says one more thing to a manifest.
fn apply_item(manifest: &mut Manifest, item: Item) -> (r: Result<(), ParseError>)
    ensures
        match with_item(old(manifest)@, item@) {
            Ok(after) => r is Ok && final(manifest)@ == after,
            Err(error) => r is Err && r->Err_0@ == error && final(manifest)@ == old(manifest)@,
        },
{
    match item {
        Item::Warning(_) => Ok(()),
        Item::Include(_) => Ok(()),
        Item::Remote(remote) => {
            let name: String = remote.name.clone();
            if manifest.remotes.insert(remote) {
                Ok(())
            } else {
                Err(ParseError::DuplicateRemote { remote: name })
            }
        },
        Item::Project(project) => {
            let path: String = project.path();
            if manifest.projects.insert(path.clone(), project) {
                Ok(())
            } else {
                Err(ParseError::DuplicateProject { path })
            }
        },
        Item::Claim(slot) => {
            let set: bool = match slot {
                Slot::Default => manifest.default.is_some(),
                Slot::ManifestServer => manifest.manifest_server.is_some(),
                Slot::SuperProject => manifest.superproject.is_some(),
                Slot::ContactInfo => manifest.contactinfo.is_some(),
                Slot::RepoHooks => manifest.repo_hooks.is_some(),
            };
            if set {
                Err(ParseError::AlreadySet { slot })
            } else {
                Ok(())
            }
        },
        Item::Default(default) => {
            manifest.default = Some(default);
            Ok(())
        },
        Item::ManifestServer(server) => {
            manifest.manifest_server = Some(server);
            Ok(())
        },
        Item::SuperProject(superproject) => {
            manifest.superproject = Some(superproject);
            Ok(())
        },
        Item::ContactInfo(info) => {
            manifest.contactinfo = Some(info);
            Ok(())
        },
        Item::RepoHooks(hooks) => {
            manifest.repo_hooks = Some(hooks);
            Ok(())
        },
    }
}

impl ManifestBuilder {
    /// Begins a manifest with its first document.
    pub fn new(document: &Vec<u8>) -> (r: ManifestBuilder)
        ensures
            r@ == begun(document@),
            reads_tags(document@),
    {
        ManifestBuilder::begin(parse_impl(document))
    }

    /// Begins a manifest with what its first document says.
    pub fn begin(read: FileRead) -> (r: ManifestBuilder)
        ensures
            r@ == begun_with(read@),
    {
        let file: PendingFile = pending_from(read);
        let warnings: Vec<Warning> = Vec::new();
        let mut pending: Vec<PendingFile> = Vec::new();
        let ghost view = file@;
        pending.push(file);
        assert(warnings.deep_view() =~= Seq::empty());
        assert(pending.deep_view() =~= seq![view]);
        ManifestBuilder { manifest: Manifest::new(), warnings, pending }
    }

    /// Supplies the file that was asked for.
    pub fn supply(&mut self, document: &Vec<u8>)
        ensures
            final(self)@ == supplied(old(self)@, document@),
    {
        self.supply_read(parse_impl(document));
    }

    /// Supplies what the file that was asked for says.
    pub fn supply_read(&mut self, read: FileRead)
        ensures
            final(self)@ == supplied_with(old(self)@, read@),
    {
        let file: PendingFile = pending_from(read);
        let ghost before = self.pending.deep_view();
        let ghost view = file@;
        self.pending.push(file);
        assert(self.pending.deep_view() =~= before.push(view));
    }

    /// Goes on as far as possible, and says what has to happen next.
    pub fn advance(&mut self) -> (r: Progress)
        ensures
            (final(self)@, r@) == advanced(old(self)@),
    {
        loop
            invariant
                advanced(self@) == advanced(old(self)@),
            decreases work(self@.pending),
        {
            let ghost now = self@;
            let ghost pending = self.pending.deep_view();
            if self.pending.len() == 0 {
                return Progress::Done;
            }
            proof {
                lemma_less_work(pending);
            }
            let mut file: PendingFile = match self.pending.pop() {
                Some(file) => file,
                None => {
                    return Progress::Done;
                },
            };
            let ghost view = file@;
            let ghost reversed = file.reversed.deep_view();
            assert(view == pending.last());
            assert(self.pending.deep_view() =~= pending.drop_last());
            match file.reversed.pop() {
                None => {
                    assert(view.items =~= Seq::empty());
                    match file.error {
                        Some(error) => {
                            return Progress::Failed(error);
                        },
                        None => {},
                    }
                },
                Some(item) => {
                    assert(item@ == reversed.last());
                    assert(view.items[0] == item@);
                    assert(file.reversed.deep_view() =~= reversed.drop_last());
                    assert(file@.items =~= view.items.drop_first());
                    let ghost left = file@;
                    self.pending.push(file);
                    assert(self.pending.deep_view() =~= pending.drop_last().push(left));
                    assert(self.pending.deep_view() == without_next(pending));
                    match item {
                        Item::Include(name) => {
                            return Progress::NeedFile(name);
                        },
                        Item::Warning(warning) => {
                            let ghost before = self.warnings.deep_view();
                            let ghost added = warning@;
                            self.warnings.push(warning);
                            assert(self.warnings.deep_view() =~= before.push(added));
                        },
                        item => {
                            match apply_item(&mut self.manifest, item) {
                                Ok(()) => {},
                                Err(error) => {
                                    return Progress::Failed(error);
                                },
                            }
                        },
                    }
                },
            }
        }
    }

    /// The manifest as far as it has got, and what was odd.
    pub fn finish(self) -> (r: (Manifest, Vec<Warning>))
        ensures
            r.0@ == self@.manifest,
            r.1.deep_view() == self@.warnings,
    {
        (self.manifest, self.warnings)
    }
}

/// A manifest that was read, what was odd about it, and what is still missing.
pub struct Parsed {
    pub manifest: Manifest,
    pub warnings: Vec<Warning>,
    pub progress: Progress,
}

/// What was written of a manifest is what was read, with nothing odd and nothing missing, where the
/// document is one that reads back.
pub open spec fn reads_back(document: Seq<u8>, parsed: Parsed) -> bool {
    forall|manifest: ManifestView|
        document == text_bytes(#[trigger] serialized(manifest)) && readable_text(manifest) ==> {
            &&& parsed.manifest@ == written_part(manifest)
            &&& parsed.warnings.deep_view() == Seq::<WarningView>::empty()
            &&& parsed.progress@ is Done
        }
}

/// Reads a manifest from its document and the files that it includes, in the order in which they
/// are asked for.
pub fn parse(document: &Vec<u8>, included: &Vec<Vec<u8>>) -> (r: Parsed)
    ensures
        ({
            let read = advanced_with(begun(document@), included.deep_view());
            &&& r.manifest@ == read.0.manifest
            &&& r.warnings.deep_view() == read.0.warnings
            &&& r.progress@ == read.1
        }),
        consistent(r.manifest@),
        reads_back(document@, r),
{
    let mut builder: ManifestBuilder = ManifestBuilder::new(document);
    let ghost all = included.deep_view();
    proof {
        law_parsed_consistent(begun(document@), all);
        assert forall|manifest: ManifestView|
            document@ == text_bytes(#[trigger] serialized(manifest)) && readable_text(
                manifest,
            ) implies advanced_with(begun(document@), all) == (
            BuilderView {
                manifest: written_part(manifest),
                warnings: Seq::empty(),
                pending: Seq::empty(),
            },
            ProgressView::Done,
        ) by {
            law_text_reads_back(manifest);
        }
    }
    let mut i: usize = 0;
    assert(all.skip(0) =~= all);
    loop
        invariant
            i <= included.len(),
            all == included.deep_view(),
            advanced_with(builder@, all.skip(i as int)) == advanced_with(begun(document@), all),
            consistent(advanced_with(begun(document@), all).0.manifest),
            forall|manifest: ManifestView|
                document@ == text_bytes(#[trigger] serialized(manifest)) && readable_text(manifest)
                    ==> advanced_with(begun(document@), all) == (
                    BuilderView {
                        manifest: written_part(manifest),
                        warnings: Seq::empty(),
                        pending: Seq::empty(),
                    },
                    ProgressView::Done,
                ),
        decreases included.len() - i,
    {
        let progress: Progress = builder.advance();
        let more: bool = match &progress {
            Progress::NeedFile(_) => i < included.len(),
            _ => false,
        };
        if !more {
            let (manifest, warnings) = builder.finish();
            return Parsed { manifest, warnings, progress };
        }
        assert(all.skip(i as int)[0] == included@[i as int].deep_view());
        assert(included@[i as int].deep_view() =~= included@[i as int]@);
        assert(all.skip(i as int).drop_first() =~= all.skip(i + 1));
        builder.supply(&included[i]);
        i += 1;
    }
}

impl Manifest {
    /// Reads a manifest from its document and the files that it includes, in the order in which
    /// they are asked for.
    pub fn parse(document: &Vec<u8>, included: &Vec<Vec<u8>>) -> (r: Parsed)
        ensures
            ({
                let read = advanced_with(begun(document@), included.deep_view());
                &&& r.manifest@ == read.0.manifest
                &&& r.warnings.deep_view() == read.0.warnings
                &&& r.progress@ == read.1
            }),
            consistent(r.manifest@),
            reads_back(document@, r),
    {
        parse(document, included)
    }
}

} // verus!
