//! Reading a manifest document into the list of what it says.
use vstd::prelude::*;

use crate::manifest::elements::{
    contactinfo_from, default_from, default_of, element_fields, include_from,
    manifest_server_from, operation_from, operation_of, parse_annotation, parse_attributes,
    project_from, project_of, read_annotation, read_element, remote_from, remote_of,
    repo_hooks_from, repo_hooks_of, superproject_from, superproject_of, AttributeError,
    AttributeErrorView, Element, Fields,
};
use crate::manifest::{
    ContactInfo, DefaultView, FileOperation, FileOperationView, ManifestServer, Project,
    ProjectView, Remote, RemoteView, RepoHooks, RepoHooksView, SuperProject, SuperProjectView,
};
use crate::text::{bytes_are, contains_char, copy_bytes, text_bytes};
use crate::xml::{
    decoded_steps, read_document, reads_tags, Event, EventView, Step, StepView, Tag, TagView,
};

verus! {

/// Where in a document something was found.
#[derive(Copy, Clone, PartialEq, Eq, Structural, Debug)]
pub enum Context {
    Document,
    Manifest,
    Notice,
    Project,
}

/// What a manifest can be given only once.
#[derive(Copy, Clone, PartialEq, Eq, Structural, Debug)]
pub enum Slot {
    Default,
    ManifestServer,
    SuperProject,
    ContactInfo,
    RepoHooks,
}

/// What is odd about a document, but no reason to refuse it.
pub enum Warning {
    /// The element cannot have an attribute of this name.
    UnknownAttribute { element: Element, key: Vec<u8> },
    /// An annotation has no name.
    UnnamedAnnotation,
    /// An annotation has no value.
    EmptyAnnotation,
    /// Nothing is made of an annotation.
    UnhandledAnnotation { name: String, value: String },
}

/// What is odd about a document, as a value.
pub enum WarningView {
    UnknownAttribute { element: Element, key: Seq<u8> },
    UnnamedAnnotation,
    EmptyAnnotation,
    UnhandledAnnotation { name: Seq<char>, value: Seq<char> },
}

impl View for Warning {
    type V = WarningView;

    open spec fn view(&self) -> WarningView {
        match self {
            Warning::UnknownAttribute { element, key } => WarningView::UnknownAttribute {
                element: *element,
                key: key@,
            },
            Warning::UnnamedAnnotation => WarningView::UnnamedAnnotation,
            Warning::EmptyAnnotation => WarningView::EmptyAnnotation,
            Warning::UnhandledAnnotation { name, value } => WarningView::UnhandledAnnotation {
                name: name@,
                value: value@,
            },
        }
    }
}

impl DeepView for Warning {
    type V = WarningView;

    open spec fn deep_view(&self) -> WarningView {
        self@
    }
}

/// One thing that a document says.
pub enum Item {
    Warning(Warning),
    /// What another file says comes here.
    Include(String),
    Remote(Remote),
    Project(Project),
    /// The manifest is about to be given this; it cannot be given it twice.
    Claim(Slot),
    Default(crate::manifest::Default),
    ManifestServer(ManifestServer),
    SuperProject(SuperProject),
    ContactInfo(ContactInfo),
    RepoHooks(RepoHooks),
}

/// One thing that a document says, as a value.
pub enum ItemView {
    Warning(WarningView),
    Include(Seq<char>),
    Remote(RemoteView),
    Project(ProjectView),
    Claim(Slot),
    Default(DefaultView),
    ManifestServer(Seq<char>),
    SuperProject(SuperProjectView),
    ContactInfo(Seq<char>),
    RepoHooks(RepoHooksView),
}

impl View for Item {
    type V = ItemView;

    open spec fn view(&self) -> ItemView {
        match self {
            Item::Warning(warning) => ItemView::Warning(warning@),
            Item::Include(name) => ItemView::Include(name@),
            Item::Remote(remote) => ItemView::Remote(remote@),
            Item::Project(project) => ItemView::Project(project@),
            Item::Claim(slot) => ItemView::Claim(*slot),
            Item::Default(default) => ItemView::Default(default@),
            Item::ManifestServer(server) => ItemView::ManifestServer(server.url@),
            Item::SuperProject(superproject) => ItemView::SuperProject(superproject@),
            Item::ContactInfo(info) => ItemView::ContactInfo(info.bug_url@),
            Item::RepoHooks(hooks) => ItemView::RepoHooks(hooks@),
        }
    }
}

impl DeepView for Item {
    type V = ItemView;

    open spec fn deep_view(&self) -> ItemView {
        self@
    }
}

/// Why a manifest is refused.
pub enum ParseError {
    /// The document is no XML at the position, for the reason given.
    Malformed { position: usize, reason: String },
    UnexpectedStart { context: Context, name: Vec<u8> },
    UnexpectedEmpty { context: Context, name: Vec<u8> },
    UnexpectedText { text: Vec<u8> },
    UnexpectedEvent { context: Context, position: usize },
    MultipleManifests,
    NoManifest,
    /// There is more than one run of text in a notice.
    MultipleTexts,
    /// The text of a notice cannot be read, for the reason given.
    BadNotice { reason: String },
    Attribute { element: Element, error: AttributeError },
    /// An included file lies in another directory.
    SlashInInclude { file: String },
    DuplicateProject { path: String },
    DuplicateRemote { remote: String },
    AlreadySet { slot: Slot },
}

/// Why a manifest is refused, as a value.
pub enum ParseErrorView {
    Malformed { position: usize, reason: Seq<char> },
    UnexpectedStart { context: Context, name: Seq<u8> },
    UnexpectedEmpty { context: Context, name: Seq<u8> },
    UnexpectedText { text: Seq<u8> },
    UnexpectedEvent { context: Context, position: usize },
    MultipleManifests,
    NoManifest,
    MultipleTexts,
    BadNotice { reason: Seq<char> },
    Attribute { element: Element, error: AttributeErrorView },
    SlashInInclude { file: Seq<char> },
    DuplicateProject { path: Seq<char> },
    DuplicateRemote { remote: Seq<char> },
    AlreadySet { slot: Slot },
}

impl View for ParseError {
    type V = ParseErrorView;

    open spec fn view(&self) -> ParseErrorView {
        match self {
            ParseError::Malformed { position, reason } => ParseErrorView::Malformed {
                position: *position,
                reason: reason@,
            },
            ParseError::UnexpectedStart { context, name } => ParseErrorView::UnexpectedStart {
                context: *context,
                name: name@,
            },
            ParseError::UnexpectedEmpty { context, name } => ParseErrorView::UnexpectedEmpty {
                context: *context,
                name: name@,
            },
            ParseError::UnexpectedText { text } => ParseErrorView::UnexpectedText { text: text@ },
            ParseError::UnexpectedEvent { context, position } => ParseErrorView::UnexpectedEvent {
                context: *context,
                position: *position,
            },
            ParseError::MultipleManifests => ParseErrorView::MultipleManifests,
            ParseError::NoManifest => ParseErrorView::NoManifest,
            ParseError::MultipleTexts => ParseErrorView::MultipleTexts,
            ParseError::BadNotice { reason } => ParseErrorView::BadNotice { reason: reason@ },
            ParseError::Attribute { element, error } => ParseErrorView::Attribute {
                element: *element,
                error: error@,
            },
            ParseError::SlashInInclude { file } => ParseErrorView::SlashInInclude { file: file@ },
            ParseError::DuplicateProject { path } => ParseErrorView::DuplicateProject {
                path: path@,
            },
            ParseError::DuplicateRemote { remote } => ParseErrorView::DuplicateRemote {
                remote: remote@,
            },
            ParseError::AlreadySet { slot } => ParseErrorView::AlreadySet { slot: *slot },
        }
    }
}

/// The warnings for names that an element's attributes cannot have.
pub open spec fn warnings_of(element: Element, unknown: Seq<Seq<u8>>) -> Seq<ItemView> {
    unknown.map_values(
        |key: Seq<u8>| ItemView::Warning(WarningView::UnknownAttribute { element, key }),
    )
}

/// What an element without children says inside `<manifest>`.
pub open spec fn element_item(element: Element, values: Seq<Option<Seq<char>>>) -> ItemView {
    match element {
        Element::Include => ItemView::Include(values[0]->0),
        Element::Remote => ItemView::Remote(remote_of(values)),
        Element::Default => ItemView::Default(default_of(values)),
        Element::ManifestServer => ItemView::ManifestServer(values[0]->0),
        Element::SuperProject => ItemView::SuperProject(superproject_of(values)),
        Element::ContactInfo => ItemView::ContactInfo(values[0]->0),
        Element::RepoHooks => ItemView::RepoHooks(repo_hooks_of(values)),
        _ => ItemView::Project(project_of(values, Seq::empty())),
    }
}

/// What the element gives the manifest, if it can be given only once.
pub open spec fn element_slot(element: Element) -> Option<Slot> {
    match element {
        Element::Default => Some(Slot::Default),
        Element::ManifestServer => Some(Slot::ManifestServer),
        Element::SuperProject => Some(Slot::SuperProject),
        Element::ContactInfo => Some(Slot::ContactInfo),
        Element::RepoHooks => Some(Slot::RepoHooks),
        _ => None,
    }
}

/// The element of a name that can stand inside `<manifest>` without children.
pub open spec fn manifest_element(name: Seq<u8>) -> Option<Element> {
    if name == text_bytes("include"@) {
        Some(Element::Include)
    } else if name == text_bytes("project"@) {
        Some(Element::Project)
    } else if name == text_bytes("remote"@) {
        Some(Element::Remote)
    } else if name == text_bytes("default"@) {
        Some(Element::Default)
    } else if name == text_bytes("manifest-server"@) {
        Some(Element::ManifestServer)
    } else if name == text_bytes("superproject"@) {
        Some(Element::SuperProject)
    } else if name == text_bytes("contactinfo"@) {
        Some(Element::ContactInfo)
    } else if name == text_bytes("repo-hooks"@) {
        Some(Element::RepoHooks)
    } else {
        None
    }
}

/// The items and the refusal, if any, after an element without children inside `<manifest>`.
pub open spec fn element_read(element: Element, tag: TagView, items: Seq<ItemView>) -> (
    Seq<ItemView>,
    Option<ParseErrorView>,
) {
    let claimed = match element_slot(element) {
        Some(slot) => items.push(ItemView::Claim(slot)),
        None => items,
    };
    let fields = read_element(element, tag);
    let warned = claimed + warnings_of(element, fields.unknown);
    match fields.error {
        Some(error) => (warned, Some(ParseErrorView::Attribute { element, error })),
        None => if element == Element::Include && fields.values[0]->0.contains('/') {
            (warned, Some(ParseErrorView::SlashInInclude { file: fields.values[0]->0 }))
        } else {
            (warned.push(element_item(element, fields.values)), None)
        },
    }
}

/// The warning about an annotation.
pub open spec fn annotation_warning(
    name: Option<Seq<char>>,
    value: Option<Seq<char>>,
) -> WarningView {
    match name {
        None => WarningView::UnnamedAnnotation,
        Some(name) => match value {
            None => WarningView::EmptyAnnotation,
            Some(value) => WarningView::UnhandledAnnotation { name, value },
        },
    }
}

/// A notice that was read, or its refusal; and what comes after it.
pub struct NoticeView {
    pub text: Option<Seq<char>>,
    pub rest: Seq<StepView>,
    pub error: Option<ParseErrorView>,
}

/// What is read inside `<notice>`.
pub open spec fn notice_body(steps: Seq<StepView>, text: Option<Seq<char>>) -> NoticeView
    decreases steps.len(),
{
    if steps.len() == 0 {
        NoticeView {
            text,
            rest: steps,
            error: Some(
                ParseErrorView::UnexpectedEvent { context: Context::Notice, position: 0 },
            ),
        }
    } else {
        let rest = steps.drop_first();
        let position = steps[0].position;
        match steps[0].event {
            EventView::Malformed(reason) => NoticeView {
                text,
                rest,
                error: Some(ParseErrorView::Malformed { position, reason }),
            },
            EventView::Start(tag) => NoticeView {
                text,
                rest,
                error: Some(
                    ParseErrorView::UnexpectedStart { context: Context::Notice, name: tag.name },
                ),
            },
            EventView::Empty(tag) => NoticeView {
                text,
                rest,
                error: Some(
                    ParseErrorView::UnexpectedEmpty { context: Context::Notice, name: tag.name },
                ),
            },
            EventView::End => NoticeView { text, rest, error: None },
            EventView::Comment => notice_body(rest, text),
            EventView::Text { text: found, .. } => if text is Some {
                NoticeView { text, rest, error: Some(ParseErrorView::MultipleTexts) }
            } else {
                match found {
                    Ok(read) => notice_body(rest, Some(read)),
                    Err(reason) => NoticeView {
                        text,
                        rest,
                        error: Some(ParseErrorView::BadNotice { reason }),
                    },
                }
            },
            _ => NoticeView {
                text,
                rest,
                error: Some(
                    ParseErrorView::UnexpectedEvent { context: Context::Notice, position },
                ),
            },
        }
    }
}

/// What was read inside `<project>`, and what comes after it.
pub struct ProjectBodyView {
    pub items: Seq<ItemView>,
    pub operations: Seq<FileOperationView>,
    pub rest: Seq<StepView>,
    pub error: Option<ParseErrorView>,
}

/// What is read inside `<project>`, after what was read already.
pub open spec fn project_body(
    steps: Seq<StepView>,
    items: Seq<ItemView>,
    operations: Seq<FileOperationView>,
) -> ProjectBodyView
    decreases steps.len(),
{
    let rest = steps.drop_first();
    if steps.len() == 0 {
        project_refused(
            items,
            operations,
            steps,
            ParseErrorView::UnexpectedEvent { context: Context::Project, position: 0 },
        )
    } else {
        match steps[0].event {
            EventView::Malformed(reason) => project_refused(
                items,
                operations,
                rest,
                ParseErrorView::Malformed { position: steps[0].position, reason },
            ),
            EventView::Start(tag) => project_refused(
                items,
                operations,
                rest,
                ParseErrorView::UnexpectedStart { context: Context::Project, name: tag.name },
            ),
            EventView::Empty(tag) => if tag.name == text_bytes("copyfile"@) || tag.name
                == text_bytes("linkfile"@) {
                let element = if tag.name == text_bytes("copyfile"@) {
                    Element::CopyFile
                } else {
                    Element::LinkFile
                };
                let fields = read_element(element, tag);
                let warned = items + warnings_of(element, fields.unknown);
                match fields.error {
                    Some(error) => project_refused(
                        warned,
                        operations,
                        rest,
                        ParseErrorView::Attribute { element, error },
                    ),
                    None => project_body(
                        rest,
                        warned,
                        operations.push(operation_of(element, fields.values)),
                    ),
                }
            } else if tag.name == text_bytes("annotation"@) {
                match read_annotation(tag.attributes, None, None) {
                    Err(error) => project_refused(
                        items,
                        operations,
                        rest,
                        ParseErrorView::Attribute { element: Element::Annotation, error },
                    ),
                    Ok((name, value)) => project_body(
                        rest,
                        items.push(ItemView::Warning(annotation_warning(name, value))),
                        operations,
                    ),
                }
            } else {
                project_refused(
                    items,
                    operations,
                    rest,
                    ParseErrorView::UnexpectedEmpty { context: Context::Project, name: tag.name },
                )
            },
            EventView::End => ProjectBodyView { items, operations, rest, error: None },
            EventView::Comment => project_body(rest, items, operations),
            _ => project_refused(
                items,
                operations,
                rest,
                ParseErrorView::UnexpectedEvent {
                    context: Context::Project,
                    position: steps[0].position,
                },
            ),
        }
    }
}

/// A project that is refused.
pub open spec fn project_refused(
    items: Seq<ItemView>,
    operations: Seq<FileOperationView>,
    rest: Seq<StepView>,
    error: ParseErrorView,
) -> ProjectBodyView {
    ProjectBodyView { items, operations, rest, error: Some(error) }
}

/// What was read so far, and what comes after it.
pub struct ReadView {
    pub items: Seq<ItemView>,
    pub rest: Seq<StepView>,
    pub error: Option<ParseErrorView>,
}

/// A document that is refused.
pub open spec fn refused(
    items: Seq<ItemView>,
    rest: Seq<StepView>,
    error: ParseErrorView,
) -> ReadView {
    ReadView { items, rest, error: Some(error) }
}

/// What is read of a `<project>` with children.
pub open spec fn project_read(tag: TagView, steps: Seq<StepView>, items: Seq<ItemView>) -> ReadView {
    let fields = read_element(Element::Project, tag);
    let warned = items + warnings_of(Element::Project, fields.unknown);
    match fields.error {
        Some(error) => refused(
            warned,
            steps,
            ParseErrorView::Attribute { element: Element::Project, error },
        ),
        None => {
            let body = project_body(steps, warned, Seq::empty());
            match body.error {
                Some(error) => refused(body.items, body.rest, error),
                None => ReadView {
                    items: body.items.push(
                        ItemView::Project(project_of(fields.values, body.operations)),
                    ),
                    rest: body.rest,
                    error: None,
                },
            }
        },
    }
}

/// What is left to read is no longer than what was there, so that reading ends.
pub proof fn lemma_notice_rest(steps: Seq<StepView>, text: Option<Seq<char>>)
    ensures
        notice_body(steps, text).rest.len() <= steps.len(),
        steps.len() > 0 ==> notice_body(steps, text).rest.len() < steps.len(),
    decreases steps.len(),
{
    if steps.len() > 0 {
        let rest = steps.drop_first();
        lemma_notice_rest(rest, text);
        match steps[0].event {
            EventView::Text { text: found, .. } => match found {
                Ok(read) => lemma_notice_rest(rest, Some(read)),
                Err(_) => {},
            },
            _ => {},
        }
    }
}

/// What is left to read is no longer than what was there, so that reading ends.
pub proof fn lemma_project_rest(
    steps: Seq<StepView>,
    items: Seq<ItemView>,
    operations: Seq<FileOperationView>,
)
    ensures
        project_body(steps, items, operations).rest.len() <= steps.len(),
    decreases steps.len(),
{
    if steps.len() > 0 {
        let rest = steps.drop_first();
        lemma_project_rest(rest, items, operations);
        match steps[0].event {
            EventView::Empty(tag) => {
                let copy = read_element(Element::CopyFile, tag);
                lemma_project_rest(
                    rest,
                    items + warnings_of(Element::CopyFile, copy.unknown),
                    operations.push(operation_of(Element::CopyFile, copy.values)),
                );
                let link = read_element(Element::LinkFile, tag);
                lemma_project_rest(
                    rest,
                    items + warnings_of(Element::LinkFile, link.unknown),
                    operations.push(operation_of(Element::LinkFile, link.values)),
                );
                match read_annotation(tag.attributes, None, None) {
                    Ok((name, value)) => {
                        lemma_project_rest(
                            rest,
                            items.push(ItemView::Warning(annotation_warning(name, value))),
                            operations,
                        );
                    },
                    Err(_) => {},
                }
            },
            _ => {},
        }
    }
}

/// What is left to read is no longer than what was there, so that reading ends.
pub proof fn lemma_project_read_rest(tag: TagView, steps: Seq<StepView>, items: Seq<ItemView>)
    ensures
        project_read(tag, steps, items).rest.len() <= steps.len(),
{
    let fields = read_element(Element::Project, tag);
    let warned = items + warnings_of(Element::Project, fields.unknown);
    lemma_project_rest(steps, warned, Seq::empty());
}

/// What is read inside `<manifest>`, after what was read already.
pub open spec fn manifest_body(steps: Seq<StepView>, items: Seq<ItemView>) -> ReadView
    decreases steps.len(),
{
    let rest = steps.drop_first();
    if steps.len() == 0 {
        refused(
            items,
            steps,
            ParseErrorView::UnexpectedEvent { context: Context::Manifest, position: 0 },
        )
    } else {
        match steps[0].event {
            EventView::Malformed(reason) => refused(
                items,
                rest,
                ParseErrorView::Malformed { position: steps[0].position, reason },
            ),
            EventView::Start(tag) => if tag.name == text_bytes("notice"@) {
                proof {
                    lemma_notice_rest(rest, None);
                }
                let notice = notice_body(rest, None);
                match notice.error {
                    Some(error) => refused(items, notice.rest, error),
                    None => manifest_body(notice.rest, items),
                }
            } else if tag.name == text_bytes("project"@) {
                proof {
                    lemma_project_read_rest(tag, rest, items);
                }
                let project = project_read(tag, rest, items);
                match project.error {
                    Some(error) => project,
                    None => manifest_body(project.rest, project.items),
                }
            } else {
                refused(
                    items,
                    rest,
                    ParseErrorView::UnexpectedStart { context: Context::Manifest, name: tag.name },
                )
            },
            EventView::Empty(tag) => match manifest_element(tag.name) {
                Some(element) => {
                    let read = element_read(element, tag, items);
                    match read.1 {
                        Some(error) => refused(read.0, rest, error),
                        None => manifest_body(rest, read.0),
                    }
                },
                None => refused(
                    items,
                    rest,
                    ParseErrorView::UnexpectedEmpty { context: Context::Manifest, name: tag.name },
                ),
            },
            EventView::End => ReadView { items, rest, error: None },
            EventView::Comment => manifest_body(rest, items),
            EventView::Text { raw, .. } => if raw.len() > 0 && raw[0] == 35u8 {
                manifest_body(rest, items)
            } else {
                refused(items, rest, ParseErrorView::UnexpectedText { text: raw })
            },
            _ => refused(
                items,
                rest,
                ParseErrorView::UnexpectedEvent {
                    context: Context::Manifest,
                    position: steps[0].position,
                },
            ),
        }
    }
}

/// What is left to read is no longer than what was there, so that reading ends.
pub proof fn lemma_manifest_rest(steps: Seq<StepView>, items: Seq<ItemView>)
    ensures
        manifest_body(steps, items).rest.len() <= steps.len(),
    decreases steps.len(),
{
    if steps.len() > 0 {
        let rest = steps.drop_first();
        lemma_manifest_rest(rest, items);
        match steps[0].event {
            EventView::Start(tag) => {
                lemma_notice_rest(rest, None);
                lemma_project_read_rest(tag, rest, items);
                lemma_manifest_rest(notice_body(rest, None).rest, items);
                let project = project_read(tag, rest, items);
                lemma_manifest_rest(project.rest, project.items);
            },
            EventView::Empty(tag) => match manifest_element(tag.name) {
                Some(element) => {
                    lemma_manifest_rest(rest, element_read(element, tag, items).0);
                },
                None => {},
            },
            _ => {},
        }
    }
}

/// What a document says, and why it is refused from there on, if it is.
#[verifier::ext_equal]
pub struct FileView {
    pub items: Seq<ItemView>,
    pub error: Option<ParseErrorView>,
}

/// What is read of a document from the given step on, after what was read already.
pub open spec fn document_body(
    steps: Seq<StepView>,
    items: Seq<ItemView>,
    found: bool,
) -> FileView
    decreases steps.len(),
{
    let rest = steps.drop_first();
    if steps.len() == 0 {
        FileView {
            items,
            error: Some(
                ParseErrorView::UnexpectedEvent { context: Context::Document, position: 0 },
            ),
        }
    } else {
        match steps[0].event {
            EventView::Malformed(reason) => FileView {
                items,
                error: Some(ParseErrorView::Malformed { position: steps[0].position, reason }),
            },
            EventView::Start(tag) => if tag.name == text_bytes("manifest"@) {
                if found {
                    FileView { items, error: Some(ParseErrorView::MultipleManifests) }
                } else {
                    proof {
                        lemma_manifest_rest(rest, items);
                    }
                    let manifest = manifest_body(rest, items);
                    match manifest.error {
                        Some(error) => FileView { items: manifest.items, error: Some(error) },
                        None => document_body(manifest.rest, manifest.items, true),
                    }
                }
            } else {
                FileView {
                    items,
                    error: Some(
                        ParseErrorView::UnexpectedStart {
                            context: Context::Document,
                            name: tag.name,
                        },
                    ),
                }
            },
            EventView::Empty(tag) => FileView {
                items,
                error: Some(
                    ParseErrorView::UnexpectedEmpty { context: Context::Document, name: tag.name },
                ),
            },
            EventView::Finish => FileView {
                items,
                error: if found {
                    None
                } else {
                    Some(ParseErrorView::NoManifest)
                },
            },
            EventView::Declaration => document_body(rest, items, found),
            EventView::Comment => document_body(rest, items, found),
            _ => FileView {
                items,
                error: Some(
                    ParseErrorView::UnexpectedEvent {
                        context: Context::Document,
                        position: steps[0].position,
                    },
                ),
            },
        }
    }
}

/// What a document says.
pub open spec fn file_read(document: Seq<u8>) -> FileView {
    document_body(decoded_steps(document), Seq::empty(), false)
}

/// What a document says, and why it is refused from there on, if it is.
pub struct FileRead {
    pub items: Vec<Item>,
    pub error: Option<ParseError>,
}

impl View for FileRead {
    type V = FileView;

    open spec fn view(&self) -> FileView {
        FileView {
            items: self.items.deep_view(),
            error: match self.error {
                Some(e) => Some(e@),
                None => None,
            },
        }
    }
}

/// Adds an item to a list.
fn add_item(items: &mut Vec<Item>, item: Item)
    ensures
        final(items).deep_view() == old(items).deep_view().push(item@),
{
    let ghost before = items.deep_view();
    let ghost added = item@;
    items.push(item);
    assert(items.deep_view() =~= before.push(added));
}

/// Reads the attributes of an element, and warns of those that it cannot have.
fn element_values(element: Element, tag: &Tag, items: &mut Vec<Item>) -> (r: Result<
    Vec<Option<String>>,
    ParseError,
>)
    ensures
        final(items).deep_view() == old(items).deep_view() + warnings_of(
            element,
            read_element(element, tag@).unknown,
        ),
        match read_element(element, tag@).error {
            Some(error) => r is Err && r->Err_0@ == (ParseErrorView::Attribute { element, error }),
            None => r is Ok && r->Ok_0.deep_view() == read_element(element, tag@).values,
        },
        r is Ok ==> r->Ok_0@.len() == element_fields(element).len() && forall|i: int|
            0 <= i < element_fields(element).len() && #[trigger] element_fields(element)[i].required
                ==> r->Ok_0.deep_view()[i] is Some,
{
    let fields: Fields = parse_attributes(element, tag);
    let ghost unknown = fields@.unknown;
    let ghost before = items.deep_view();
    let mut i: usize = 0;
    assert(before + warnings_of(element, unknown).take(0) =~= before);
    while i < fields.unknown.len()
        invariant
            i <= fields.unknown.len(),
            unknown == fields@.unknown,
            items.deep_view() == before + warnings_of(element, unknown).take(i as int),
        decreases fields.unknown.len() - i,
    {
        let key: Vec<u8> = copy_bytes(&fields.unknown[i]);
        assert(unknown[i as int] == fields.unknown@[i as int].deep_view());
        assert(fields.unknown@[i as int].deep_view() =~= fields.unknown@[i as int]@);
        add_item(items, Item::Warning(Warning::UnknownAttribute { element, key }));
        assert(items.deep_view() =~= before + warnings_of(element, unknown).take(i + 1));
        i += 1;
    }
    assert(warnings_of(element, unknown).take(unknown.len() as int) =~= warnings_of(
        element,
        unknown,
    ));
    match fields.error {
        Some(error) => Err(ParseError::Attribute { element, error }),
        None => Ok(fields.values),
    }
}

/// Reads an element without children inside `<manifest>`.
fn parse_element(element: Element, tag: &Tag, items: &mut Vec<Item>) -> (r: Result<(), ParseError>)
    requires
        manifest_element(tag@.name) == Some(element),
    ensures
        ({
            let read = element_read(element, tag@, old(items).deep_view());
            &&& final(items).deep_view() == read.0
            &&& match read.1 {
                Some(error) => r is Err && r->Err_0@ == error,
                None => r is Ok,
            }
        }),
{
    let slot: Option<Slot> = match element {
        Element::Default => Some(Slot::Default),
        Element::ManifestServer => Some(Slot::ManifestServer),
        Element::SuperProject => Some(Slot::SuperProject),
        Element::ContactInfo => Some(Slot::ContactInfo),
        Element::RepoHooks => Some(Slot::RepoHooks),
        _ => None,
    };
    match slot {
        Some(slot) => {
            add_item(items, Item::Claim(slot));
        },
        None => {},
    }
    let values: Vec<Option<String>> = match element_values(element, tag, items) {
        Ok(values) => values,
        Err(error) => {
            return Err(error);
        },
    };
    let ghost fields = element_fields(element);
    match element {
        Element::Include => {
            assert(fields[0].required);
            let name: String = include_from(&values);
            if contains_char(name.as_str(), '/') {
                return Err(ParseError::SlashInInclude { file: name });
            }
            add_item(items, Item::Include(name));
        },
        Element::Remote => {
            assert(fields[0].required && fields[2].required);
            add_item(items, Item::Remote(remote_from(&values)));
        },
        Element::Default => {
            add_item(items, Item::Default(default_from(&values)));
        },
        Element::ManifestServer => {
            assert(fields[0].required);
            add_item(items, Item::ManifestServer(manifest_server_from(&values)));
        },
        Element::SuperProject => {
            assert(fields[0].required && fields[1].required);
            add_item(items, Item::SuperProject(superproject_from(&values)));
        },
        Element::ContactInfo => {
            assert(fields[0].required);
            add_item(items, Item::ContactInfo(contactinfo_from(&values)));
        },
        Element::RepoHooks => {
            add_item(items, Item::RepoHooks(repo_hooks_from(&values)));
        },
        _ => {
            assert(element == Element::Project);
            assert(fields[0].required);
            let operations: Vec<FileOperation> = Vec::new();
            assert(operations.deep_view() =~= Seq::empty());
            add_item(items, Item::Project(project_from(&values, operations)));
        },
    }
    Ok(())
}

/// The element of a name that can stand inside `<manifest>` without children.
fn element_named(name: &Vec<u8>) -> (r: Option<Element>)
    ensures
        r == manifest_element(name@),
{
    if bytes_are(name, "include") {
        Some(Element::Include)
    } else if bytes_are(name, "project") {
        Some(Element::Project)
    } else if bytes_are(name, "remote") {
        Some(Element::Remote)
    } else if bytes_are(name, "default") {
        Some(Element::Default)
    } else if bytes_are(name, "manifest-server") {
        Some(Element::ManifestServer)
    } else if bytes_are(name, "superproject") {
        Some(Element::SuperProject)
    } else if bytes_are(name, "contactinfo") {
        Some(Element::ContactInfo)
    } else if bytes_are(name, "repo-hooks") {
        Some(Element::RepoHooks)
    } else {
        None
    }
}

/// Reads what is inside `<notice>`, from the step `at` on, and goes on past its end.
fn parse_notice(steps: &Vec<Step>, at: &mut usize) -> (r: Result<String, ParseError>)
    requires
        *old(at) <= steps@.len(),
    ensures
        *final(at) <= steps@.len(),
        ({
            let notice = notice_body(steps.deep_view().skip(*old(at) as int), None);
            match notice.error {
                Some(error) => r is Err && r->Err_0@ == error,
                None => {
                    &&& r is Ok
                    &&& r->Ok_0@ == match notice.text {
                        Some(text) => text,
                        None => Seq::empty(),
                    }
                    &&& steps.deep_view().skip(*final(at) as int) == notice.rest
                },
            }
        }),
{
    let mut text: Option<String> = None;
    loop
        invariant
            *at <= steps@.len(),
            notice_body(steps.deep_view().skip(*old(at) as int), None) == notice_body(
                steps.deep_view().skip(*at as int),
                text.deep_view(),
            ),
        decreases steps@.len() - *at,
    {
        let ghost left = steps.deep_view().skip(*at as int);
        if *at >= steps.len() {
            return Err(ParseError::UnexpectedEvent { context: Context::Notice, position: 0 });
        }
        let step: &Step = &steps[*at];
        assert(left[0] == step@);
        assert(left.drop_first() =~= steps.deep_view().skip(*at + 1));
        *at += 1;
        match &step.event {
            Event::Malformed(reason) => {
                return Err(
                    ParseError::Malformed { position: step.position, reason: reason.clone() },
                );
            },
            Event::Start(tag) => {
                return Err(
                    ParseError::UnexpectedStart {
                        context: Context::Notice,
                        name: copy_bytes(&tag.name),
                    },
                );
            },
            Event::Empty(tag) => {
                return Err(
                    ParseError::UnexpectedEmpty {
                        context: Context::Notice,
                        name: copy_bytes(&tag.name),
                    },
                );
            },
            Event::End => {
                return match text {
                    Some(text) => Ok(text),
                    None => {
                        let empty: String = String::new();
                        assert(empty@ =~= Seq::empty());
                        Ok(empty)
                    },
                };
            },
            Event::Comment => {},
            Event::Text { text: found, .. } => {
                if text.is_some() {
                    return Err(ParseError::MultipleTexts);
                }
                match found {
                    Ok(read) => {
                        text = Some(read.clone());
                    },
                    Err(reason) => {
                        return Err(ParseError::BadNotice { reason: reason.clone() });
                    },
                }
            },
            _ => {
                return Err(
                    ParseError::UnexpectedEvent {
                        context: Context::Notice,
                        position: step.position,
                    },
                );
            },
        }
    }
}

/// Reads what is inside `<project>`, from the step `at` on, and goes on past its end.
fn parse_project_body(steps: &Vec<Step>, at: &mut usize, items: &mut Vec<Item>) -> (r: Result<
    Vec<FileOperation>,
    ParseError,
>)
    requires
        *old(at) <= steps@.len(),
    ensures
        *final(at) <= steps@.len(),
        ({
            let body = project_body(
                steps.deep_view().skip(*old(at) as int),
                old(items).deep_view(),
                Seq::empty(),
            );
            &&& final(items).deep_view() == body.items
            &&& match body.error {
                Some(error) => r is Err && r->Err_0@ == error,
                None => {
                    &&& r is Ok
                    &&& r->Ok_0.deep_view() == body.operations
                    &&& steps.deep_view().skip(*final(at) as int) == body.rest
                },
            }
        }),
{
    let mut operations: Vec<FileOperation> = Vec::new();
    assert(operations.deep_view() =~= Seq::empty());
    loop
        invariant
            *at <= steps@.len(),
            project_body(
                steps.deep_view().skip(*old(at) as int),
                old(items).deep_view(),
                Seq::empty(),
            ) == project_body(
                steps.deep_view().skip(*at as int),
                items.deep_view(),
                operations.deep_view(),
            ),
        decreases steps@.len() - *at,
    {
        let ghost left = steps.deep_view().skip(*at as int);
        if *at >= steps.len() {
            return Err(ParseError::UnexpectedEvent { context: Context::Project, position: 0 });
        }
        let step: &Step = &steps[*at];
        assert(left[0] == step@);
        assert(left.drop_first() =~= steps.deep_view().skip(*at + 1));
        *at += 1;
        match &step.event {
            Event::Malformed(reason) => {
                return Err(
                    ParseError::Malformed { position: step.position, reason: reason.clone() },
                );
            },
            Event::Start(tag) => {
                return Err(
                    ParseError::UnexpectedStart {
                        context: Context::Project,
                        name: copy_bytes(&tag.name),
                    },
                );
            },
            Event::Empty(tag) => {
                if bytes_are(&tag.name, "copyfile") || bytes_are(&tag.name, "linkfile") {
                    let element: Element = if bytes_are(&tag.name, "copyfile") {
                        Element::CopyFile
                    } else {
                        Element::LinkFile
                    };
                    match element_values(element, tag, items) {
                        Ok(values) => {
                            let ghost before = operations.deep_view();
                            assert(element_fields(element)[0].required && element_fields(
                                element,
                            )[1].required);
                            let operation: FileOperation = operation_from(element, &values);
                            let ghost added = operation@;
                            operations.push(operation);
                            assert(operations.deep_view() =~= before.push(added));
                        },
                        Err(error) => {
                            return Err(error);
                        },
                    }
                } else if bytes_are(&tag.name, "annotation") {
                    match parse_annotation(tag) {
                        Ok((name, value)) => {
                            let warning: Warning = match name {
                                None => Warning::UnnamedAnnotation,
                                Some(name) => match value {
                                    None => Warning::EmptyAnnotation,
                                    Some(value) => Warning::UnhandledAnnotation { name, value },
                                },
                            };
                            add_item(items, Item::Warning(warning));
                        },
                        Err(error) => {
                            return Err(
                                ParseError::Attribute { element: Element::Annotation, error },
                            );
                        },
                    }
                } else {
                    return Err(
                        ParseError::UnexpectedEmpty {
                            context: Context::Project,
                            name: copy_bytes(&tag.name),
                        },
                    );
                }
            },
            Event::End => {
                return Ok(operations);
            },
            Event::Comment => {},
            _ => {
                return Err(
                    ParseError::UnexpectedEvent {
                        context: Context::Project,
                        position: step.position,
                    },
                );
            },
        }
    }
}

/// Reads a `<project>` with children, whose inside begins at the step `at`.
fn parse_project(
    tag: &Tag,
    steps: &Vec<Step>,
    at: &mut usize,
    items: &mut Vec<Item>,
) -> (r: Result<(), ParseError>)
    requires
        *old(at) <= steps@.len(),
    ensures
        *final(at) <= steps@.len(),
        ({
            let read = project_read(
                tag@,
                steps.deep_view().skip(*old(at) as int),
                old(items).deep_view(),
            );
            &&& final(items).deep_view() == read.items
            &&& match read.error {
                Some(error) => r is Err && r->Err_0@ == error,
                None => {
                    &&& r is Ok
                    &&& steps.deep_view().skip(*final(at) as int) == read.rest
                },
            }
        }),
{
    let values: Vec<Option<String>> = match element_values(Element::Project, tag, items) {
        Ok(values) => values,
        Err(error) => {
            return Err(error);
        },
    };
    assert(element_fields(Element::Project)[0].required);
    match parse_project_body(steps, at, items) {
        Ok(operations) => {
            add_item(items, Item::Project(project_from(&values, operations)));
            Ok(())
        },
        Err(error) => Err(error),
    }
}

/// Reads what is inside `<manifest>`, from the step `at` on, and goes on past its end.
fn parse_manifest(steps: &Vec<Step>, at: &mut usize, items: &mut Vec<Item>) -> (r: Result<
    (),
    ParseError,
>)
    requires
        *old(at) <= steps@.len(),
    ensures
        *final(at) <= steps@.len(),
        ({
            let read = manifest_body(
                steps.deep_view().skip(*old(at) as int),
                old(items).deep_view(),
            );
            &&& final(items).deep_view() == read.items
            &&& match read.error {
                Some(error) => r is Err && r->Err_0@ == error,
                None => {
                    &&& r is Ok
                    &&& steps.deep_view().skip(*final(at) as int) == read.rest
                },
            }
        }),
{
    loop
        invariant
            *at <= steps@.len(),
            manifest_body(
                steps.deep_view().skip(*old(at) as int),
                old(items).deep_view(),
            ) == manifest_body(steps.deep_view().skip(*at as int), items.deep_view()),
        decreases steps@.len() - *at,
    {
        let ghost said = items.deep_view();
        let ghost left = steps.deep_view().skip(*at as int);
        if *at >= steps.len() {
            return Err(ParseError::UnexpectedEvent { context: Context::Manifest, position: 0 });
        }
        let step: &Step = &steps[*at];
        assert(left[0] == step@);
        assert(left.drop_first() =~= steps.deep_view().skip(*at + 1));
        *at += 1;
        match &step.event {
            Event::Malformed(reason) => {
                return Err(
                    ParseError::Malformed { position: step.position, reason: reason.clone() },
                );
            },
            Event::Start(tag) => {
                if bytes_are(&tag.name, "notice") {
                    proof {
                        lemma_notice_rest(left.drop_first(), None);
                    }
                    match parse_notice(steps, at) {
                        Ok(_) => {},
                        Err(error) => {
                            return Err(error);
                        },
                    }
                } else if bytes_are(&tag.name, "project") {
                    proof {
                        lemma_project_read_rest(tag@, left.drop_first(), said);
                    }
                    match parse_project(tag, steps, at, items) {
                        Ok(()) => {},
                        Err(error) => {
                            return Err(error);
                        },
                    }
                } else {
                    return Err(
                        ParseError::UnexpectedStart {
                            context: Context::Manifest,
                            name: copy_bytes(&tag.name),
                        },
                    );
                }
            },
            Event::Empty(tag) => {
                match element_named(&tag.name) {
                    Some(element) => match parse_element(element, tag, items) {
                        Ok(()) => {},
                        Err(error) => {
                            return Err(error);
                        },
                    },
                    None => {
                        return Err(
                            ParseError::UnexpectedEmpty {
                                context: Context::Manifest,
                                name: copy_bytes(&tag.name),
                            },
                        );
                    },
                }
            },
            Event::End => {
                return Ok(());
            },
            Event::Comment => {},
            Event::Text { raw, .. } => {
                // Stray text is ignored where it begins with a `#`.
                if !(raw.len() > 0 && raw[0] == 35u8) {
                    return Err(ParseError::UnexpectedText { text: copy_bytes(raw) });
                }
            },
            _ => {
                return Err(
                    ParseError::UnexpectedEvent {
                        context: Context::Manifest,
                        position: step.position,
                    },
                );
            },
        }
    }
}

/// Reads the steps of a document.
fn parse_document(steps: &Vec<Step>, items: &mut Vec<Item>) -> (r: Result<(), ParseError>)
    requires
        old(items)@.len() == 0,
    ensures
        ({
            let read = document_body(steps.deep_view(), Seq::empty(), false);
            &&& final(items).deep_view() == read.items
            &&& match read.error {
                Some(error) => r is Err && r->Err_0@ == error,
                None => r is Ok,
            }
        }),
{
    let mut position: usize = 0;
    let at: &mut usize = &mut position;
    let mut found: bool = false;
    assert(items.deep_view() =~= Seq::empty());
    assert(steps.deep_view().skip(0) =~= steps.deep_view());
    loop
        invariant
            *at <= steps@.len(),
            document_body(steps.deep_view(), Seq::empty(), false) == document_body(
                steps.deep_view().skip(*at as int),
                items.deep_view(),
                found,
            ),
        decreases steps@.len() - *at,
    {
        let ghost said = items.deep_view();
        let ghost left = steps.deep_view().skip(*at as int);
        if *at >= steps.len() {
            return Err(ParseError::UnexpectedEvent { context: Context::Document, position: 0 });
        }
        let step: &Step = &steps[*at];
        assert(left[0] == step@);
        assert(left.drop_first() =~= steps.deep_view().skip(*at + 1));
        *at += 1;
        match &step.event {
            Event::Malformed(reason) => {
                return Err(
                    ParseError::Malformed { position: step.position, reason: reason.clone() },
                );
            },
            Event::Start(tag) => {
                if !bytes_are(&tag.name, "manifest") {
                    return Err(
                        ParseError::UnexpectedStart {
                            context: Context::Document,
                            name: copy_bytes(&tag.name),
                        },
                    );
                }
                if found {
                    return Err(ParseError::MultipleManifests);
                }
                found = true;
                proof {
                    lemma_manifest_rest(left.drop_first(), said);
                }
                match parse_manifest(steps, at, items) {
                    Ok(()) => {},
                    Err(error) => {
                        return Err(error);
                    },
                }
            },
            Event::Empty(tag) => {
                return Err(
                    ParseError::UnexpectedEmpty {
                        context: Context::Document,
                        name: copy_bytes(&tag.name),
                    },
                );
            },
            Event::Finish => {
                if found {
                    return Ok(());
                }
                return Err(ParseError::NoManifest);
            },
            Event::Declaration => {},
            Event::Comment => {},
            _ => {
                return Err(
                    ParseError::UnexpectedEvent {
                        context: Context::Document,
                        position: step.position,
                    },
                );
            },
        }
    }
}

/// What the steps of a document say.
pub fn parse_steps(steps: &Vec<Step>) -> (r: FileRead)
    ensures
        r@ == document_body(steps.deep_view(), Seq::empty(), false),
{
    let mut items: Vec<Item> = Vec::new();
    match parse_document(steps, &mut items) {
        Ok(()) => FileRead { items, error: None },
        Err(error) => FileRead { items, error: Some(error) },
    }
}

/// Reads a document.
pub fn parse_impl(document: &Vec<u8>) -> (r: FileRead)
    ensures
        r@ == file_read(document@),
        reads_tags(document@),
{
    parse_steps(&read_document(document))
}

} // verus!
