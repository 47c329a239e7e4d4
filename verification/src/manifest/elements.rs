//! The elements of a manifest document: which attributes they have, and what they stand for.
use vstd::prelude::*;

use crate::manifest::{
    ContactInfo, DefaultView, FileOperation, FileOperationView, ManifestServer, Project,
    ProjectView, Remote, RemoteView, RepoHooks, RepoHooksView, SuperProject, SuperProjectView,
};
use crate::text::{
    bool_value, bytes_are, copy_bytes, copy_option, parse_bool, parse_u32, split, split_on, text_bytes,
    u32_value,
};
use crate::xml::{Tag, TagAttribute, TagAttributeView, TagView};

verus! {

/// An element that has attributes.
#[derive(Copy, Clone, PartialEq, Eq, Structural, Debug)]
pub enum Element {
    Include,
    Remote,
    Default,
    ManifestServer,
    SuperProject,
    ContactInfo,
    RepoHooks,
    Project,
    CopyFile,
    LinkFile,
    Annotation,
}

/// What the value of an attribute is.
#[derive(Copy, Clone, PartialEq, Eq, Structural, Debug)]
pub enum FieldKind {
    Text,
    Number,
    Boolean,
    /// Nothing is made of the value.
    Ignored,
}

/// An attribute that an element can have.
pub struct Field {
    pub name: &'static str,
    pub kind: FieldKind,
    pub required: bool,
}

/// An attribute that an element can have, as a value.
pub struct FieldView {
    pub name: Seq<char>,
    pub kind: FieldKind,
    pub required: bool,
}

impl View for Field {
    type V = FieldView;

    open spec fn view(&self) -> FieldView {
        FieldView { name: self.name@, kind: self.kind, required: self.required }
    }
}

impl DeepView for Field {
    type V = FieldView;

    open spec fn deep_view(&self) -> FieldView {
        self@
    }
}

/// What is wrong with the attributes of an element.
pub enum AttributeError {
    /// There is no attribute where one should be, for the reason given.
    Malformed(String),
    /// The value stands for no text, for the reason given.
    BadText(String),
    /// The attribute of this name has a value already.
    Repeated(&'static str),
    /// The value of the attribute of this name is no number or no truth value.
    BadValue(&'static str),
    /// The attribute of this name is not there.
    Missing(&'static str),
    /// The element cannot have an attribute of this name.
    Unknown(Vec<u8>),
}

/// What is wrong with the attributes of an element, as a value.
pub enum AttributeErrorView {
    Malformed(Seq<char>),
    BadText(Seq<char>),
    Repeated(Seq<char>),
    BadValue(Seq<char>),
    Missing(Seq<char>),
    Unknown(Seq<u8>),
}

impl View for AttributeError {
    type V = AttributeErrorView;

    open spec fn view(&self) -> AttributeErrorView {
        match self {
            AttributeError::Malformed(reason) => AttributeErrorView::Malformed(reason@),
            AttributeError::BadText(reason) => AttributeErrorView::BadText(reason@),
            AttributeError::Repeated(name) => AttributeErrorView::Repeated(name@),
            AttributeError::BadValue(name) => AttributeErrorView::BadValue(name@),
            AttributeError::Missing(name) => AttributeErrorView::Missing(name@),
            AttributeError::Unknown(key) => AttributeErrorView::Unknown(key@),
        }
    }
}

/// An attribute whose value is text.
pub open spec fn text_field(name: Seq<char>) -> FieldView {
    FieldView { name, kind: FieldKind::Text, required: false }
}

/// An attribute whose value is text, without which the element is refused.
pub open spec fn required_field(name: Seq<char>) -> FieldView {
    FieldView { name, kind: FieldKind::Text, required: true }
}

/// An attribute whose value is of the given kind.
pub open spec fn field_of(name: Seq<char>, kind: FieldKind) -> FieldView {
    FieldView { name, kind, required: false }
}

/// The attributes that an element can have.
pub open spec fn element_fields(element: Element) -> Seq<FieldView> {
    match element {
        Element::Include => seq![required_field("name"@)],
        Element::Remote => seq![
            required_field("name"@),
            text_field("alias"@),
            required_field("fetch"@),
            text_field("review"@),
            text_field("revision"@),
        ],
        Element::Default => seq![
            text_field("revision"@),
            text_field("remote"@),
            field_of("sync-j"@, FieldKind::Number),
            field_of("sync-c"@, FieldKind::Boolean),
            field_of("upstream"@, FieldKind::Ignored),
        ],
        Element::ManifestServer => seq![required_field("url"@)],
        Element::SuperProject => seq![required_field("name"@), required_field("remote"@)],
        Element::ContactInfo => seq![required_field("bugurl"@)],
        Element::RepoHooks => seq![text_field("in-project"@), text_field("enabled-list"@)],
        Element::Project => seq![
            required_field("name"@),
            text_field("path"@),
            text_field("remote"@),
            text_field("revision"@),
            text_field("dest-branch"@),
            text_field("groups"@),
            field_of("sync-c"@, FieldKind::Boolean),
            field_of("clone-depth"@, FieldKind::Number),
            field_of("upstream"@, FieldKind::Ignored),
        ],
        Element::CopyFile => seq![required_field("src"@), required_field("dest"@)],
        Element::LinkFile => seq![required_field("src"@), required_field("dest"@)],
        Element::Annotation => seq![text_field("name"@), text_field("value"@)],
    }
}

/// The position of the attribute of the given name, or the number of attributes where there is
/// none.
pub open spec fn field_position(fields: Seq<FieldView>, key: Seq<u8>) -> nat
    decreases fields.len(),
{
    if fields.len() == 0 || text_bytes(fields[0].name) == key {
        0
    } else {
        1 + field_position(fields.drop_first(), key)
    }
}

/// The text is a value of the kind.
pub open spec fn fits(kind: FieldKind, text: Seq<char>) -> bool {
    match kind {
        FieldKind::Number => u32_value(text) is Some,
        FieldKind::Boolean => bool_value(text) is Some,
        _ => true,
    }
}

/// What was read of an element's attributes: the values in the order of the fields, the names
/// that the element cannot have, and what was wrong.
#[verifier::ext_equal]
pub struct FieldsView {
    pub values: Seq<Option<Seq<char>>>,
    pub unknown: Seq<Seq<u8>>,
    pub error: Option<AttributeErrorView>,
}

/// The name of the first required field that has no value.
pub open spec fn first_missing(
    fields: Seq<FieldView>,
    values: Seq<Option<Seq<char>>>,
) -> Option<Seq<char>>
    decreases fields.len(),
{
    if fields.len() == 0 {
        None
    } else if fields[0].required && values[0] is None {
        Some(fields[0].name)
    } else {
        first_missing(fields.drop_first(), values.drop_first())
    }
}

/// What is read of the attributes that are left, after what was read already.
pub open spec fn read_fields(
    attributes: Seq<TagAttributeView>,
    fields: Seq<FieldView>,
    values: Seq<Option<Seq<char>>>,
    unknown: Seq<Seq<u8>>,
) -> FieldsView
    decreases attributes.len(),
{
    if attributes.len() == 0 {
        FieldsView {
            values,
            unknown,
            error: match first_missing(fields, values) {
                Some(name) => Some(AttributeErrorView::Missing(name)),
                None => None,
            },
        }
    } else {
        match attributes[0] {
            TagAttributeView::Malformed(reason) => FieldsView {
                values,
                unknown,
                error: Some(AttributeErrorView::Malformed(reason)),
            },
            TagAttributeView::Pair { key, text } => match text {
                Err(reason) => FieldsView {
                    values,
                    unknown,
                    error: Some(AttributeErrorView::BadText(reason)),
                },
                Ok(text) => {
                    let i = field_position(fields, key) as int;
                    let rest = attributes.drop_first();
                    if i >= fields.len() {
                        read_fields(rest, fields, values, unknown.push(key))
                    } else if fields[i].kind is Ignored {
                        read_fields(rest, fields, values, unknown)
                    } else if values[i] is Some {
                        FieldsView {
                            values,
                            unknown,
                            error: Some(AttributeErrorView::Repeated(fields[i].name)),
                        }
                    } else if !fits(fields[i].kind, text) {
                        FieldsView {
                            values,
                            unknown,
                            error: Some(AttributeErrorView::BadValue(fields[i].name)),
                        }
                    } else {
                        read_fields(rest, fields, values.update(i, Some(text)), unknown)
                    }
                },
            },
        }
    }
}

/// No values yet.
pub open spec fn no_values(n: nat) -> Seq<Option<Seq<char>>> {
    Seq::new(n, |i: int| None)
}

/// What is read of the attributes of an element.
pub open spec fn read_element(element: Element, tag: TagView) -> FieldsView {
    read_fields(
        tag.attributes,
        element_fields(element),
        no_values(element_fields(element).len()),
        Seq::empty(),
    )
}

/// A number that may be there.
pub open spec fn number_of(value: Option<Seq<char>>) -> Option<u32> {
    match value {
        Some(text) => u32_value(text),
        None => None,
    }
}

/// A truth value that may be there.
pub open spec fn boolean_of(value: Option<Seq<char>>) -> Option<bool> {
    match value {
        Some(text) => bool_value(text),
        None => None,
    }
}

/// The remote that the values of `<remote>` stand for.
pub open spec fn remote_of(values: Seq<Option<Seq<char>>>) -> RemoteView {
    RemoteView {
        name: values[0]->0,
        alias: values[1],
        fetch: values[2]->0,
        review: values[3],
        revision: values[4],
    }
}

/// What the values of `<default>` stand for.
pub open spec fn default_of(values: Seq<Option<Seq<char>>>) -> DefaultView {
    DefaultView {
        revision: values[0],
        remote: values[1],
        sync_j: number_of(values[2]),
        sync_c: boolean_of(values[3]),
    }
}

/// What the values of `<superproject>` stand for.
pub open spec fn superproject_of(values: Seq<Option<Seq<char>>>) -> SuperProjectView {
    SuperProjectView { name: values[0]->0, remote: values[1]->0 }
}

/// What the values of `<repo-hooks>` stand for.
pub open spec fn repo_hooks_of(values: Seq<Option<Seq<char>>>) -> RepoHooksView {
    RepoHooksView { in_project: values[0], enabled_list: values[1] }
}

/// The project that the values of `<project>` and the file operations inside stand for.
pub open spec fn project_of(
    values: Seq<Option<Seq<char>>>,
    operations: Seq<FileOperationView>,
) -> ProjectView {
    ProjectView {
        name: values[0]->0,
        path: values[1],
        remote: values[2],
        revision: values[3],
        dest_branch: values[4],
        groups: match values[5] {
            Some(list) => Some(split_on(list, ',')),
            None => None,
        },
        sync_c: boolean_of(values[6]),
        clone_depth: number_of(values[7]),
        file_operations: operations,
        annotations: Seq::empty(),
    }
}

/// What the values of `<copyfile>` or `<linkfile>` stand for.
pub open spec fn operation_of(element: Element, values: Seq<Option<Seq<char>>>) -> FileOperationView {
    if element == Element::CopyFile {
        FileOperationView::CopyFile { src: values[0]->0, dst: values[1]->0 }
    } else {
        FileOperationView::LinkFile { src: values[0]->0, dst: values[1]->0 }
    }
}

/// What is read of the attributes of `<annotation>` that are left: of each name the last value
/// counts, and no other name is accepted.
pub open spec fn read_annotation(
    attributes: Seq<TagAttributeView>,
    name: Option<Seq<char>>,
    value: Option<Seq<char>>,
) -> Result<(Option<Seq<char>>, Option<Seq<char>>), AttributeErrorView>
    decreases attributes.len(),
{
    if attributes.len() == 0 {
        Ok((name, value))
    } else {
        match attributes[0] {
            TagAttributeView::Malformed(reason) => Err(AttributeErrorView::Malformed(reason)),
            TagAttributeView::Pair { key, text } => match text {
                Err(reason) => Err(AttributeErrorView::BadText(reason)),
                Ok(text) => if key == text_bytes("name"@) {
                    read_annotation(attributes.drop_first(), Some(text), value)
                } else if key == text_bytes("value"@) {
                    read_annotation(attributes.drop_first(), name, Some(text))
                } else {
                    Err(AttributeErrorView::Unknown(key))
                },
            },
        }
    }
}

proof fn lemma_first_missing(fields: Seq<FieldView>, values: Seq<Option<Seq<char>>>)
    requires
        fields.len() == values.len(),
    ensures
        first_missing(fields, values) is None ==> forall|i: int|
            0 <= i < fields.len() && #[trigger] fields[i].required ==> values[i] is Some,
    decreases fields.len(),
{
    if fields.len() > 0 && !(fields[0].required && values[0] is None) {
        let fs = fields.drop_first();
        let vs = values.drop_first();
        lemma_first_missing(fs, vs);
        if first_missing(fields, values) is None {
            assert forall|i: int|
                0 <= i < fields.len() && #[trigger] fields[i].required implies values[i] is Some by {
                if i > 0 {
                    assert(fs[i - 1] == fields[i]);
                    assert(vs[i - 1] == values[i]);
                    assert(fs[i - 1].required);
                }
            }
        }
    }
}

/// Every field has its place among the values, and what is required is there unless an error says
/// otherwise.
pub proof fn lemma_read_fields(
    attributes: Seq<TagAttributeView>,
    fields: Seq<FieldView>,
    values: Seq<Option<Seq<char>>>,
    unknown: Seq<Seq<u8>>,
)
    requires
        fields.len() == values.len(),
    ensures
        ({
            let r = read_fields(attributes, fields, values, unknown);
            &&& r.values.len() == fields.len()
            &&& r.error is None ==> forall|i: int|
                0 <= i < fields.len() && #[trigger] fields[i].required ==> r.values[i] is Some
        }),
    decreases attributes.len(),
{
    if attributes.len() == 0 {
        lemma_first_missing(fields, values);
    } else {
        match attributes[0] {
            TagAttributeView::Pair { key, text } => match text {
                Ok(text) => {
                    let i = field_position(fields, key) as int;
                    let rest = attributes.drop_first();
                    lemma_read_fields(rest, fields, values, unknown.push(key));
                    lemma_read_fields(rest, fields, values, unknown);
                    if i < fields.len() {
                        lemma_read_fields(rest, fields, values.update(i, Some(text)), unknown);
                    }
                },
                Err(_) => {},
            },
            TagAttributeView::Malformed(_) => {},
        }
    }
}

/// What was read of an element's attributes.
pub struct Fields {
    pub values: Vec<Option<String>>,
    pub unknown: Vec<Vec<u8>>,
    pub error: Option<AttributeError>,
}

impl View for Fields {
    type V = FieldsView;

    open spec fn view(&self) -> FieldsView {
        FieldsView {
            values: self.values.deep_view(),
            unknown: self.unknown.deep_view(),
            error: match self.error {
                Some(e) => Some(e@),
                None => None,
            },
        }
    }
}

fn text(name: &'static str) -> (r: Field)
    ensures
        r@ == text_field(name@),
{
    Field { name, kind: FieldKind::Text, required: false }
}

fn required(name: &'static str) -> (r: Field)
    ensures
        r@ == required_field(name@),
{
    Field { name, kind: FieldKind::Text, required: true }
}

fn special(name: &'static str, kind: FieldKind) -> (r: Field)
    ensures
        r@ == field_of(name@, kind),
{
    Field { name, kind, required: false }
}

/// The attributes that an element can have.
fn fields_of(element: Element) -> (r: Vec<Field>)
    ensures
        r.deep_view() == element_fields(element),
{
    let r: Vec<Field> = match element {
        Element::Include => vec![required("name")],
        Element::Remote => vec![
            required("name"),
            text("alias"),
            required("fetch"),
            text("review"),
            text("revision"),
        ],
        Element::Default => vec![
            text("revision"),
            text("remote"),
            special("sync-j", FieldKind::Number),
            special("sync-c", FieldKind::Boolean),
            special("upstream", FieldKind::Ignored),
        ],
        Element::ManifestServer => vec![required("url")],
        Element::SuperProject => vec![required("name"), required("remote")],
        Element::ContactInfo => vec![required("bugurl")],
        Element::RepoHooks => vec![text("in-project"), text("enabled-list")],
        Element::Project => vec![
            required("name"),
            text("path"),
            text("remote"),
            text("revision"),
            text("dest-branch"),
            text("groups"),
            special("sync-c", FieldKind::Boolean),
            special("clone-depth", FieldKind::Number),
            special("upstream", FieldKind::Ignored),
        ],
        Element::CopyFile => vec![required("src"), required("dest")],
        Element::LinkFile => vec![required("src"), required("dest")],
        Element::Annotation => vec![text("name"), text("value")],
    };
    assert(r.deep_view() =~= element_fields(element));
    r
}

/// The position of the attribute of the given name.
fn find_field(fields: &Vec<Field>, key: &Vec<u8>) -> (r: usize)
    ensures
        r == field_position(fields.deep_view(), key@),
        r <= fields@.len(),
{
    let ghost all = fields.deep_view();
    let mut i: usize = 0;
    assert(all.skip(0) =~= all);
    while i < fields.len()
        invariant
            i <= fields.len(),
            all == fields.deep_view(),
            field_position(all, key@) == i + field_position(all.skip(i as int), key@),
        decreases fields.len() - i,
    {
        assert(all.skip(i as int)[0] == fields@[i as int]@);
        assert(all.skip(i as int).drop_first() =~= all.skip(i + 1));
        if bytes_are(key, fields[i].name) {
            return i;
        }
        i += 1;
    }
    i
}

/// The name of the first required field that has no value.
fn find_missing(fields: &Vec<Field>, values: &Vec<Option<String>>) -> (r: Option<&'static str>)
    requires
        fields@.len() == values@.len(),
    ensures
        match r {
            Some(name) => first_missing(fields.deep_view(), values.deep_view()) == Some(name@),
            None => first_missing(fields.deep_view(), values.deep_view()) is None,
        },
{
    let ghost fs = fields.deep_view();
    let ghost vs = values.deep_view();
    let mut i: usize = 0;
    assert(fs.skip(0) =~= fs && vs.skip(0) =~= vs);
    while i < fields.len()
        invariant
            i <= fields.len(),
            fields@.len() == values@.len(),
            fs == fields.deep_view(),
            vs == values.deep_view(),
            first_missing(fs, vs) == first_missing(fs.skip(i as int), vs.skip(i as int)),
        decreases fields.len() - i,
    {
        assert(fs.skip(i as int)[0] == fields@[i as int]@);
        assert(vs.skip(i as int)[0] == values@[i as int].deep_view());
        assert(fs.skip(i as int).drop_first() =~= fs.skip(i + 1));
        assert(vs.skip(i as int).drop_first() =~= vs.skip(i + 1));
        if fields[i].required && values[i].is_none() {
            return Some(fields[i].name);
        }
        i += 1;
    }
    None
}

/// Whether the text is a value of the kind.
fn is_value(kind: FieldKind, text: &str) -> (r: bool)
    ensures
        r == fits(kind, text@),
{
    match kind {
        FieldKind::Number => parse_u32(text).is_some(),
        FieldKind::Boolean => parse_bool(text).is_some(),
        _ => true,
    }
}

/// Reads the attributes of an element.
pub(crate) fn parse_attributes(element: Element, tag: &Tag) -> (r: Fields)
    ensures
        r@ == read_element(element, tag@),
        r@.values.len() == element_fields(element).len(),
        r@.error is None ==> forall|i: int|
            0 <= i < element_fields(element).len() && #[trigger] element_fields(element)[i].required
                ==> r@.values[i] is Some,
{
    let fields: Vec<Field> = fields_of(element);
    let attributes: &Vec<TagAttribute> = &tag.attributes;
    let ghost fs = fields.deep_view();
    let ghost all = attributes.deep_view();
    proof {
        lemma_read_fields(all, fs, no_values(fs.len()), Seq::empty());
    }
    let mut values: Vec<Option<String>> = Vec::new();
    let mut unknown: Vec<Vec<u8>> = Vec::new();
    let mut k: usize = 0;
    assert(values.deep_view() =~= no_values(0));
    while k < fields.len()
        invariant
            k <= fields.len(),
            values.deep_view() == no_values(k as nat),
        decreases fields.len() - k,
    {
        let ghost before = values.deep_view();
        let none: Option<String> = None;
        values.push(none);
        assert(none.deep_view() is None);
        assert(values.deep_view() =~= before.push(none.deep_view()));
        assert(values.deep_view() =~= no_values((k + 1) as nat));
        k += 1;
    }
    assert(unknown.deep_view() =~= Seq::empty());
    let mut i: usize = 0;
    assert(all.skip(0) =~= all);
    let ghost total = read_element(element, tag@);
    while i < attributes.len()
        invariant
            i <= attributes.len(),
            fs == fields.deep_view(),
            fs == element_fields(element),
            all == attributes.deep_view(),
            values@.len() == fields@.len(),
            total == read_element(element, tag@),
            total == read_fields(
                all.skip(i as int),
                fs,
                values.deep_view(),
                unknown.deep_view(),
            ),
            total.values.len() == fs.len(),
            total.error is None ==> forall|i: int|
                0 <= i < fs.len() && #[trigger] fs[i].required ==> total.values[i] is Some,
        decreases attributes.len() - i,
    {
        let ghost left = all.skip(i as int);
        assert(left[0] == attributes@[i as int]@);
        assert(left.drop_first() =~= all.skip(i + 1));
        match &attributes[i] {
            TagAttribute::Malformed(reason) => {
                return Fields {
                    values,
                    unknown,
                    error: Some(AttributeError::Malformed(reason.clone())),
                };
            },
            TagAttribute::Pair { key, text } => {
                match text {
                    Err(reason) => {
                        return Fields {
                            values,
                            unknown,
                            error: Some(AttributeError::BadText(reason.clone())),
                        };
                    },
                    Ok(text) => {
                        let at: usize = find_field(&fields, key);
                        assert(at < fs.len() ==> fs[at as int] == fields@[at as int]@);
                        if at >= fields.len() {
                            let ghost before = unknown.deep_view();
                            let copy: Vec<u8> = copy_bytes(key);
                            assert(copy.deep_view() =~= key@);
                            unknown.push(copy);
                            assert(unknown.deep_view() =~= before.push(key@));
                        } else if fields[at].kind == FieldKind::Ignored {
                        } else {
                            assert(values.deep_view()[at as int]
                                == values@[at as int].deep_view());
                            if values[at].is_some() {
                                return Fields {
                                    values,
                                    unknown,
                                    error: Some(AttributeError::Repeated(fields[at].name)),
                                };
                            }
                            if !is_value(fields[at].kind, text.as_str()) {
                                return Fields {
                                    values,
                                    unknown,
                                    error: Some(AttributeError::BadValue(fields[at].name)),
                                };
                            }
                            let ghost before = values.deep_view();
                            let ghost entered = text@;
                            values.set(at, Some(text.clone()));
                            assert(values.deep_view() =~= before.update(at as int, Some(entered)));
                        }
                    },
                }
            },
        }
        i += 1;
    }
    assert(all.skip(i as int).len() == 0);
    let error: Option<AttributeError> = match find_missing(&fields, &values) {
        Some(name) => Some(AttributeError::Missing(name)),
        None => None,
    };
    Fields { values, unknown, error }
}

/// Reads the attributes of `<annotation>`.
pub(crate) fn parse_annotation(tag: &Tag) -> (r: Result<
    (Option<String>, Option<String>),
    AttributeError,
>)
    ensures
        match read_annotation(tag@.attributes, None, None) {
            Ok((name, value)) => r is Ok && r->Ok_0.0.deep_view() == name && r->Ok_0.1.deep_view()
                == value,
            Err(e) => r is Err && r->Err_0@ == e,
        },
{
    let attributes: &Vec<TagAttribute> = &tag.attributes;
    let ghost all = attributes.deep_view();
    let mut name: Option<String> = None;
    let mut value: Option<String> = None;
    let mut i: usize = 0;
    assert(all.skip(0) =~= all);
    while i < attributes.len()
        invariant
            i <= attributes.len(),
            all == attributes.deep_view(),
            all == tag@.attributes,
            read_annotation(all, None, None) == read_annotation(
                all.skip(i as int),
                name.deep_view(),
                value.deep_view(),
            ),
        decreases attributes.len() - i,
    {
        assert(all.skip(i as int)[0] == attributes@[i as int]@);
        assert(all.skip(i as int).drop_first() =~= all.skip(i + 1));
        match &attributes[i] {
            TagAttribute::Malformed(reason) => {
                return Err(AttributeError::Malformed(reason.clone()));
            },
            TagAttribute::Pair { key, text } => {
                match text {
                    Err(reason) => {
                        return Err(AttributeError::BadText(reason.clone()));
                    },
                    Ok(text) => {
                        if bytes_are(key, "name") {
                            name = Some(text.clone());
                        } else if bytes_are(key, "value") {
                            value = Some(text.clone());
                        } else {
                            return Err(AttributeError::Unknown(copy_bytes(key)));
                        }
                    },
                }
            },
        }
        i += 1;
    }
    Ok((name, value))
}

/// The value that is there.
fn text_at(values: &Vec<Option<String>>, i: usize) -> (r: String)
    requires
        i < values@.len(),
        values.deep_view()[i as int] is Some,
    ensures
        r@ == values.deep_view()[i as int]->0,
{
    assert(values.deep_view()[i as int] == values@[i as int].deep_view());
    match &values[i] {
        Some(text) => text.clone(),
        None => String::new(),
    }
}

/// The value that may be there.
fn option_at(values: &Vec<Option<String>>, i: usize) -> (r: Option<String>)
    requires
        i < values@.len(),
    ensures
        r.deep_view() == values.deep_view()[i as int],
{
    assert(values.deep_view()[i as int] == values@[i as int].deep_view());
    copy_option(&values[i])
}

/// The number that may be there.
fn number_at(values: &Vec<Option<String>>, i: usize) -> (r: Option<u32>)
    requires
        i < values@.len(),
    ensures
        r == number_of(values.deep_view()[i as int]),
{
    assert(values.deep_view()[i as int] == values@[i as int].deep_view());
    match &values[i] {
        Some(text) => parse_u32(text.as_str()),
        None => None,
    }
}

/// The truth value that may be there.
fn boolean_at(values: &Vec<Option<String>>, i: usize) -> (r: Option<bool>)
    requires
        i < values@.len(),
    ensures
        r == boolean_of(values.deep_view()[i as int]),
{
    assert(values.deep_view()[i as int] == values@[i as int].deep_view());
    match &values[i] {
        Some(text) => parse_bool(text.as_str()),
        None => None,
    }
}

/// The file that `<include>` names.
pub(crate) fn include_from(values: &Vec<Option<String>>) -> (r: String)
    requires
        values@.len() == 1,
        values.deep_view()[0] is Some,
    ensures
        r@ == values.deep_view()[0]->0,
{
    text_at(values, 0)
}

/// The remote that the values stand for.
pub(crate) fn remote_from(values: &Vec<Option<String>>) -> (r: Remote)
    requires
        values@.len() == 5,
        values.deep_view()[0] is Some,
        values.deep_view()[2] is Some,
    ensures
        r@ == remote_of(values.deep_view()),
{
    Remote {
        name: text_at(values, 0),
        alias: option_at(values, 1),
        fetch: text_at(values, 2),
        review: option_at(values, 3),
        revision: option_at(values, 4),
    }
}

/// The default that the values stand for.
pub(crate) fn default_from(values: &Vec<Option<String>>) -> (r: crate::manifest::Default)
    requires
        values@.len() == 5,
    ensures
        r@ == default_of(values.deep_view()),
{
    crate::manifest::Default {
        revision: option_at(values, 0),
        remote: option_at(values, 1),
        sync_j: number_at(values, 2),
        sync_c: boolean_at(values, 3),
    }
}

/// The manifest server that the values stand for.
pub(crate) fn manifest_server_from(values: &Vec<Option<String>>) -> (r: ManifestServer)
    requires
        values@.len() == 1,
        values.deep_view()[0] is Some,
    ensures
        r.url@ == values.deep_view()[0]->0,
{
    ManifestServer { url: text_at(values, 0) }
}

/// The superproject that the values stand for.
pub(crate) fn superproject_from(values: &Vec<Option<String>>) -> (r: SuperProject)
    requires
        values@.len() == 2,
        values.deep_view()[0] is Some,
        values.deep_view()[1] is Some,
    ensures
        r@ == superproject_of(values.deep_view()),
{
    SuperProject { name: text_at(values, 0), remote: text_at(values, 1) }
}

/// The contact that the values stand for.
pub(crate) fn contactinfo_from(values: &Vec<Option<String>>) -> (r: ContactInfo)
    requires
        values@.len() == 1,
        values.deep_view()[0] is Some,
    ensures
        r.bug_url@ == values.deep_view()[0]->0,
{
    ContactInfo { bug_url: text_at(values, 0) }
}

/// The hooks that the values stand for.
pub(crate) fn repo_hooks_from(values: &Vec<Option<String>>) -> (r: RepoHooks)
    requires
        values@.len() == 2,
    ensures
        r@ == repo_hooks_of(values.deep_view()),
{
    RepoHooks { in_project: option_at(values, 0), enabled_list: option_at(values, 1) }
}

/// The project that the values and the file operations stand for.
pub(crate) fn project_from(
    values: &Vec<Option<String>>,
    operations: Vec<FileOperation>,
) -> (r: Project)
    requires
        values@.len() == 9,
        values.deep_view()[0] is Some,
    ensures
        r@ == project_of(values.deep_view(), operations.deep_view()),
{
    let groups: Option<Vec<String>> = match option_at(values, 5) {
        Some(list) => Some(split(list.as_str(), ',')),
        None => None,
    };
    let annotations: Vec<(String, String)> = Vec::new();
    assert(annotations.deep_view() =~= Seq::empty());
    Project {
        name: text_at(values, 0),
        path: option_at(values, 1),
        remote: option_at(values, 2),
        revision: option_at(values, 3),
        dest_branch: option_at(values, 4),
        groups,
        sync_c: boolean_at(values, 6),
        clone_depth: number_at(values, 7),
        file_operations: operations,
        annotations,
    }
}

/// The file operation that the values stand for.
pub(crate) fn operation_from(element: Element, values: &Vec<Option<String>>) -> (r: FileOperation)
    requires
        values@.len() == 2,
        values.deep_view()[0] is Some,
        values.deep_view()[1] is Some,
    ensures
        r@ == operation_of(element, values.deep_view()),
{
    let src: String = text_at(values, 0);
    let dst: String = text_at(values, 1);
    if element == Element::CopyFile {
        FileOperation::CopyFile { src, dst }
    } else {
        FileOperation::LinkFile { src, dst }
    }
}

} // verus!
