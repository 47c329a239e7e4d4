//! XML as events: what a document holds one after another, and the text of a written document.
use vstd::prelude::*;

use crate::markup::{
    indent_width, literal_tags, literal_values, nested, pairs_text, plain_pairs, plain_tag,
    plain_tags, tags_text, Pairs, WrittenTag,
};
use crate::text::{copy_bytes, text_bytes};

use quick_xml::events::attributes::{Attribute, Attributes};
use quick_xml::events::{BytesEnd, BytesStart, BytesText, Event as Found};

verus! {

/// What a document holds at one place, as it stands.
///
/// A tag is what stands between its angle brackets, and the length of the name that it begins with.
pub enum RawEvent {
    Start(Vec<u8>, usize),
    Empty(Vec<u8>, usize),
    End,
    Text(Vec<u8>),
    Comment,
    Declaration,
    Other,
    Finish,
    Malformed(String),
}

/// What a document holds at one place, as it stands, as a value.
pub enum RawEventView {
    Start(Seq<u8>, usize),
    Empty(Seq<u8>, usize),
    End,
    Text(Seq<u8>),
    Comment,
    Declaration,
    Other,
    Finish,
    Malformed(Seq<char>),
}

impl View for RawEvent {
    type V = RawEventView;

    open spec fn view(&self) -> RawEventView {
        match self {
            RawEvent::Start(tag, name) => RawEventView::Start(tag@, *name),
            RawEvent::Empty(tag, name) => RawEventView::Empty(tag@, *name),
            RawEvent::End => RawEventView::End,
            RawEvent::Text(text) => RawEventView::Text(text@),
            RawEvent::Comment => RawEventView::Comment,
            RawEvent::Declaration => RawEventView::Declaration,
            RawEvent::Other => RawEventView::Other,
            RawEvent::Finish => RawEventView::Finish,
            RawEvent::Malformed(reason) => RawEventView::Malformed(reason@),
        }
    }
}

/// An event as it stands, and how many bytes of the document have been read with it.
pub struct RawStep {
    pub event: RawEvent,
    pub position: usize,
}

/// An event as it stands, with its position, as a value.
pub struct RawStepView {
    pub event: RawEventView,
    pub position: usize,
}

impl View for RawStep {
    type V = RawStepView;

    open spec fn view(&self) -> RawStepView {
        RawStepView { event: self.event@, position: self.position }
    }
}

/// After this event there is nothing to read.
pub open spec fn is_last(event: RawEventView) -> bool {
    event is Finish || event is Malformed
}

/// The steps end with the end of the document or with what is no XML, and only there.
pub open spec fn complete(steps: Seq<RawStepView>) -> bool {
    &&& steps.len() > 0
    &&& is_last(steps.last().event)
    &&& forall|i: int| 0 <= i < steps.len() - 1 ==> !is_last(#[trigger] steps[i].event)
}

/// A reader of a document.
#[verifier::external_body]
pub struct EventReader {
    reader: quick_xml::Reader<std::io::Cursor<Vec<u8>>>,
}

/// All the steps of a document.
pub uninterp spec fn document_steps(document: Seq<u8>) -> Seq<RawStepView>;

/// The steps that a reader has yet to give.
pub uninterp spec fn steps_left(reader: EventReader) -> Seq<RawStepView>;

/// A tag as it stands between its angle brackets.
pub open spec fn tag_content(name: Seq<char>, pairs: Pairs) -> Seq<u8> {
    text_bytes(name + pairs_text(pairs))
}

/// The event is the tag as it is written.
pub open spec fn is_raw_tag(event: RawEventView, tag: WrittenTag) -> bool {
    match tag {
        WrittenTag::Open(_, name, pairs) => event matches RawEventView::Start(content, length)
            && content == tag_content(name, pairs) && length as nat == text_bytes(name).len(),
        WrittenTag::Close(_, _) => event is End,
    }
}

/// The steps are the tags one after another, and then the end.
pub open spec fn gives_tags(steps: Seq<RawStepView>, tags: Seq<WrittenTag>) -> bool {
    &&& steps.len() == tags.len() + 1
    &&& forall|i: int| 0 <= i < tags.len() ==> is_raw_tag((#[trigger] steps[i]).event, tags[i])
    &&& steps.last().event is Finish
}

/// Begins to read a document, with white space around text left out.
///
/// Calls `quick_xml::Reader::from_reader` and `trim_text`. What the reader will give is a
/// function of the document alone, named `document_steps` here: its last step is the end of the
/// document or an error, and no other step is. Where the document is nothing but plain tags that
/// are nested, each on a line of its own, the reader gives those tags and then the end.
#[verifier::external_body]
fn open_document(document: &Vec<u8>) -> (r: EventReader)
    ensures
        steps_left(r) == document_steps(document@),
        complete(steps_left(r)),
        forall|tags: Seq<WrittenTag>|
            document@ == text_bytes(#[trigger] tags_text(tags)) && plain_tags(tags) && nested(
                tags,
                Seq::empty(),
            ) ==> gives_tags(steps_left(r), tags),
{
    let mut reader = quick_xml::Reader::from_reader(std::io::Cursor::new(document.clone()));
    reader.trim_text(true);
    EventReader { reader }
}

/// Reads on by one step.
///
/// Calls `quick_xml::Reader::read_event` and `buffer_position`. The step is the first of those
/// left, and the others are left after it.
#[verifier::external_body]
fn next_step(reader: &mut EventReader) -> (r: RawStep)
    ensures
        steps_left(*old(reader)).len() > 0 ==> r@ == steps_left(*old(reader)).first(),
        steps_left(*old(reader)).len() > 0 ==> steps_left(*final(reader)) == steps_left(
            *old(reader),
        ).drop_first(),
{
    let event = match reader.reader.read_event(&mut Vec::new()) {
        Ok(Found::Start(e)) => RawEvent::Start(e.to_vec(), e.name().len()),
        Ok(Found::Empty(e)) => RawEvent::Empty(e.to_vec(), e.name().len()),
        Ok(Found::End(_)) => RawEvent::End,
        Ok(Found::Text(e)) => RawEvent::Text(e.to_vec()),
        Ok(Found::Comment(_)) => RawEvent::Comment,
        Ok(Found::Decl(_)) => RawEvent::Declaration,
        Ok(Found::Eof) => RawEvent::Finish,
        Ok(_) => RawEvent::Other,
        Err(e) => RawEvent::Malformed(e.to_string()),
    };
    RawStep { event, position: reader.reader.buffer_position() }
}

/// The attributes of a tag in their order: key and raw value, or why there is none.
pub uninterp spec fn tag_attributes(content: Seq<u8>, name_length: usize) -> Seq<
    Result<(Seq<u8>, Seq<u8>), Seq<char>>,
>;

/// Keys and values as they stand.
pub open spec fn raw_pairs(pairs: Pairs) -> Seq<Result<(Seq<u8>, Seq<u8>), Seq<char>>> {
    Seq::new(
        pairs.len(),
        |i: int| Ok((text_bytes(pairs[i].0), text_bytes(pairs[i].1))),
    )
}

/// The attributes of a tag in their order: key and raw value, or why there is none.
///
/// Calls `quick_xml::events::attributes::Attributes::new` and takes what it hands out. That is a
/// function of the tag's bytes and of the length of its name, named `tag_attributes` here. Where
/// plain keys and values are written behind the name, it hands out those.
#[verifier::external_body]
fn attributes_of(content: &Vec<u8>, name_length: usize) -> (r: Vec<
    Result<(Vec<u8>, Vec<u8>), String>,
>)
    ensures
        attribute_list(r@) == tag_attributes(content@, name_length),
        forall|name: Seq<char>, pairs: Pairs|
            content@ == #[trigger] tag_content(name, pairs) && name_length as nat == text_bytes(
                name,
            ).len() && plain_pairs(pairs) ==> attribute_list(r@) == raw_pairs(pairs),
{
    Attributes::new(content, name_length).map(
        |found| match found {
            Ok(a) => Ok((a.key.to_vec(), a.value.into_owned())),
            Err(e) => Err(e.to_string()),
        },
    ).collect()
}

/// A list of attributes, as values.
pub open spec fn attribute_list(list: Seq<Result<(Vec<u8>, Vec<u8>), String>>) -> Seq<
    Result<(Seq<u8>, Seq<u8>), Seq<char>>,
> {
    Seq::new(
        list.len(),
        |i: int|
            match list[i] {
                Ok(a) => Ok((a.0@, a.1@)),
                Err(e) => Err(e@),
            },
    )
}

/// The text that a raw attribute value stands for, or why it stands for none.
pub uninterp spec fn value_text(raw: Seq<u8>) -> Result<Seq<char>, Seq<char>>;

/// A value without `&` stands for itself.
pub open spec fn reads_value(raw: Seq<u8>, read: Result<Seq<char>, Seq<char>>) -> bool {
    forall|text: Seq<char>|
        raw == #[trigger] text_bytes(text) && !text.contains('&') ==> (read matches Ok(found)
            && found == text)
}

/// The text that a raw attribute value stands for, or why it stands for none.
///
/// Calls `quick_xml::events::attributes::Attribute::unescape_and_decode_value`, whose result is a
/// function of the value alone (the reader that it takes decodes UTF-8 in any case) and is named
/// `value_text` here. A value without `&` stands for itself.
#[verifier::external_body]
fn unescape_value(raw: &Vec<u8>) -> (r: Result<String, String>)
    ensures
        text_result(r) == value_text(raw@),
        reads_value(raw@, text_result(r)),
{
    let reader = quick_xml::Reader::from_str("");
    let attribute = Attribute { key: b"", value: std::borrow::Cow::Borrowed(raw.as_slice()) };
    attribute.unescape_and_decode_value(&reader).map_err(|e| e.to_string())
}

/// The text that raw character data stands for, or why it stands for none.
pub uninterp spec fn character_text(raw: Seq<u8>) -> Result<Seq<char>, Seq<char>>;

/// The text that raw character data stands for, or why it stands for none.
///
/// Calls `quick_xml::events::BytesText::unescape_and_decode`, whose result is a function of the
/// bytes alone (the reader that it takes decodes UTF-8 in any case) and is named `character_text`
/// here.
#[verifier::external_body]
fn unescape_text(raw: &Vec<u8>) -> (r: Result<String, String>)
    ensures
        text_result(r) == character_text(raw@),
{
    let reader = quick_xml::Reader::from_str("");
    BytesText::from_escaped(raw.as_slice()).unescape_and_decode(&reader).map_err(|e| e.to_string())
}

/// A text or a reason, as values.
pub open spec fn text_result(r: Result<String, String>) -> Result<Seq<char>, Seq<char>> {
    match r {
        Ok(text) => Ok(text@),
        Err(reason) => Err(reason@),
    }
}

/// An attribute of a tag.
pub enum TagAttribute {
    /// There is no attribute where one should be, for the reason given.
    Malformed(String),
    /// The key, and the text of the value or why it has none.
    Pair { key: Vec<u8>, text: Result<String, String> },
}

/// An attribute of a tag, as a value.
pub enum TagAttributeView {
    Malformed(Seq<char>),
    Pair { key: Seq<u8>, text: Result<Seq<char>, Seq<char>> },
}

impl View for TagAttribute {
    type V = TagAttributeView;

    open spec fn view(&self) -> TagAttributeView {
        match self {
            TagAttribute::Malformed(reason) => TagAttributeView::Malformed(reason@),
            TagAttribute::Pair { key, text } => TagAttributeView::Pair {
                key: key@,
                text: text_result(*text),
            },
        }
    }
}

impl DeepView for TagAttribute {
    type V = TagAttributeView;

    open spec fn deep_view(&self) -> TagAttributeView {
        self@
    }
}

/// An opening tag.
pub struct Tag {
    pub name: Vec<u8>,
    pub attributes: Vec<TagAttribute>,
}

/// An opening tag, as a value.
pub struct TagView {
    pub name: Seq<u8>,
    pub attributes: Seq<TagAttributeView>,
}

impl View for Tag {
    type V = TagView;

    open spec fn view(&self) -> TagView {
        TagView { name: self.name@, attributes: self.attributes.deep_view() }
    }
}

/// The attributes with the keys and values.
pub open spec fn attributes(pairs: Pairs) -> Seq<TagAttributeView> {
    pairs.map_values(
        |p: (Seq<char>, Seq<char>)| TagAttributeView::Pair { key: text_bytes(p.0), text: Ok(p.1) },
    )
}

/// The tag of the name with the keys and values.
pub open spec fn tag_of(name: Seq<char>, pairs: Pairs) -> TagView {
    TagView { name: text_bytes(name), attributes: attributes(pairs) }
}

/// What a document holds at one place.
pub enum Event {
    /// `<name ..>`
    Start(Tag),
    /// `<name ../>`
    Empty(Tag),
    /// `</name>`
    End,
    /// Text between tags: as it stands, and what it stands for or why it stands for nothing.
    Text { raw: Vec<u8>, text: Result<String, String> },
    /// `<!-- .. -->`
    Comment,
    /// `<?xml ..?>`
    Declaration,
    /// `<![CDATA[..]]>`, `<!DOCTYPE ..>` or `<?..?>`
    Other,
    /// The end of the document.
    Finish,
    /// What is there is no XML; the text says why.
    Malformed(String),
}

/// What a document holds at one place, as a value.
pub enum EventView {
    Start(TagView),
    Empty(TagView),
    End,
    Text { raw: Seq<u8>, text: Result<Seq<char>, Seq<char>> },
    Comment,
    Declaration,
    Other,
    Finish,
    Malformed(Seq<char>),
}

impl View for Event {
    type V = EventView;

    open spec fn view(&self) -> EventView {
        match self {
            Event::Start(tag) => EventView::Start(tag@),
            Event::Empty(tag) => EventView::Empty(tag@),
            Event::End => EventView::End,
            Event::Text { raw, text } => EventView::Text { raw: raw@, text: text_result(*text) },
            Event::Comment => EventView::Comment,
            Event::Declaration => EventView::Declaration,
            Event::Other => EventView::Other,
            Event::Finish => EventView::Finish,
            Event::Malformed(reason) => EventView::Malformed(reason@),
        }
    }
}

/// What a reader sees of a tag.
pub open spec fn tag_event(tag: WrittenTag) -> EventView {
    match tag {
        WrittenTag::Open(_, name, pairs) => EventView::Start(tag_of(name, pairs)),
        WrittenTag::Close(_, _) => EventView::End,
    }
}

/// What a reader sees of tags.
pub open spec fn tag_events(tags: Seq<WrittenTag>) -> Seq<EventView> {
    tags.map_values(|t: WrittenTag| tag_event(t))
}

/// An event, and how many bytes of the document have been read with it.
pub struct Step {
    pub event: Event,
    pub position: usize,
}

/// An event with its position, as a value.
pub struct StepView {
    pub event: EventView,
    pub position: usize,
}

impl View for Step {
    type V = StepView;

    open spec fn view(&self) -> StepView {
        StepView { event: self.event@, position: self.position }
    }
}

impl DeepView for Step {
    type V = StepView;

    open spec fn deep_view(&self) -> StepView {
        self@
    }
}

/// An attribute with its value decoded.
pub open spec fn decoded_attribute(
    found: Result<(Seq<u8>, Seq<u8>), Seq<char>>,
) -> TagAttributeView {
    match found {
        Ok((key, raw)) => TagAttributeView::Pair { key, text: value_text(raw) },
        Err(reason) => TagAttributeView::Malformed(reason),
    }
}

/// A tag with its name apart and its attributes decoded.
pub open spec fn decoded_tag(content: Seq<u8>, name_length: usize) -> TagView {
    TagView {
        name: if name_length <= content.len() {
            content.take(name_length as int)
        } else {
            content
        },
        attributes: tag_attributes(content, name_length).map_values(
            |found: Result<(Seq<u8>, Seq<u8>), Seq<char>>| decoded_attribute(found),
        ),
    }
}

/// A step with attributes and text decoded.
pub open spec fn decoded_step(step: RawStepView) -> StepView {
    StepView {
        event: match step.event {
            RawEventView::Start(tag, name) => EventView::Start(decoded_tag(tag, name)),
            RawEventView::Empty(tag, name) => EventView::Empty(decoded_tag(tag, name)),
            RawEventView::End => EventView::End,
            RawEventView::Text(raw) => EventView::Text { raw, text: character_text(raw) },
            RawEventView::Comment => EventView::Comment,
            RawEventView::Declaration => EventView::Declaration,
            RawEventView::Other => EventView::Other,
            RawEventView::Finish => EventView::Finish,
            RawEventView::Malformed(reason) => EventView::Malformed(reason),
        },
        position: step.position,
    }
}

/// The steps of a document with attributes and text decoded.
pub open spec fn decoded_steps(document: Seq<u8>) -> Seq<StepView> {
    document_steps(document).map_values(|step: RawStepView| decoded_step(step))
}

/// The steps begin with the events.
pub open spec fn begins(steps: Seq<StepView>, events: Seq<EventView>) -> bool {
    &&& events.len() <= steps.len()
    &&& forall|i: int| 0 <= i < events.len() ==> (#[trigger] steps[i]).event == events[i]
}

/// Where plain keys and values are written behind a name, they are what is read.
pub open spec fn reads_tag(content: Seq<u8>, name_length: usize) -> bool {
    forall|name: Seq<char>, pairs: Pairs|
        content == #[trigger] tag_content(name, pairs) && name_length as nat == text_bytes(
            name,
        ).len() && plain_pairs(pairs) && literal_values(pairs) ==> decoded_tag(
            content,
            name_length,
        ) == tag_of(name, pairs)
}

/// Where a plain tag is written, it is what is read.
pub open spec fn reads_step(step: RawStepView) -> bool {
    forall|tag: WrittenTag|
        #[trigger] is_raw_tag(step.event, tag) && plain_tag(tag) && literal_tags(seq![tag])
            ==> decoded_step(step).event == tag_event(tag)
}

/// Where a document is nothing but plain tags that are nested, each on a line of its own, those
/// tags are what is read, and then the end.
pub open spec fn reads_tags(document: Seq<u8>) -> bool {
    forall|tags: Seq<WrittenTag>|
        document == text_bytes(#[trigger] tags_text(tags)) && plain_tags(tags) && literal_tags(
            tags,
        ) && nested(tags, Seq::empty()) ==> begins(
            decoded_steps(document),
            tag_events(tags).push(EventView::Finish),
        )
}

proof fn lemma_reads_tag(
    content: Seq<u8>,
    name_length: usize,
    all: Seq<Result<(Seq<u8>, Seq<u8>), Seq<char>>>,
)
    requires
        all == tag_attributes(content, name_length),
        forall|name: Seq<char>, pairs: Pairs|
            content == #[trigger] tag_content(name, pairs) && name_length as nat == text_bytes(
                name,
            ).len() && plain_pairs(pairs) ==> all == raw_pairs(pairs),
        forall|k: int|
            0 <= k < all.len() ==> (#[trigger] all[k] matches Ok((_, raw)) ==> reads_value(
                    raw,
                    value_text(raw),
                )),
    ensures
        reads_tag(content, name_length),
{
    assert forall|name: Seq<char>, pairs: Pairs|
        content == #[trigger] tag_content(name, pairs) && name_length as nat == text_bytes(
            name,
        ).len() && plain_pairs(pairs) && literal_values(pairs) implies decoded_tag(
        content,
        name_length,
    ) == tag_of(name, pairs) by {
        let read = decoded_tag(content, name_length);
        let told = tag_of(name, pairs);
        crate::text::lemma_bytes_of_both(name, pairs_text(pairs));
        assert(content == text_bytes(name) + text_bytes(pairs_text(pairs)));
        assert(read.name =~= told.name);
        assert(all == raw_pairs(pairs));
        assert forall|k: int| 0 <= k < pairs.len() implies read.attributes[k]
            == told.attributes[k] by {
            assert(all[k] is Ok);
            let raw = text_bytes(pairs[k].1);
            assert(reads_value(raw, value_text(raw)));
            assert(!pairs[k].1.contains('&'));
        }
        assert(read.attributes =~= told.attributes);
    }
}

/// Decodes a tag.
fn decode_tag(content: Vec<u8>, name_length: usize) -> (r: Tag)
    ensures
        r@ == decoded_tag(content@, name_length),
        reads_tag(content@, name_length),
{
    let found: Vec<Result<(Vec<u8>, Vec<u8>), String>> = attributes_of(&content, name_length);
    let ghost all = attribute_list(found@);
    let ghost expected = decoded_tag(content@, name_length).attributes;
    let mut attributes: Vec<TagAttribute> = Vec::new();
    let mut i: usize = 0;
    assert(attributes.deep_view() =~= expected.take(0));
    while i < found.len()
        invariant
            i <= found.len(),
            all == attribute_list(found@),
            expected == all.map_values(
                |found: Result<(Seq<u8>, Seq<u8>), Seq<char>>| decoded_attribute(found),
            ),
            attributes.deep_view() == expected.take(i as int),
            forall|k: int|
                0 <= k < i ==> (#[trigger] all[k] matches Ok((_, raw)) ==> reads_value(
                    raw,
                    value_text(raw),
                )),
        decreases found.len() - i,
    {
        let ghost before = attributes.deep_view();
        let attribute: TagAttribute = match &found[i] {
            Ok(pair) => {
                let text: Result<String, String> = unescape_value(&pair.1);
                TagAttribute::Pair { key: copy_bytes(&pair.0), text }
            },
            Err(reason) => TagAttribute::Malformed(reason.clone()),
        };
        assert(attribute@ == expected[i as int]);
        attributes.push(attribute);
        assert(attributes.deep_view() =~= before.push(expected[i as int]));
        assert(attributes.deep_view() =~= expected.take(i + 1));
        i += 1;
    }
    assert(attributes.deep_view() =~= expected);
    let ghost whole = content@;
    proof {
        lemma_reads_tag(whole, name_length, all);
    }
    let mut name: Vec<u8> = content;
    name.truncate(name_length);
    assert(name@ =~= decoded_tag(whole, name_length).name);
    Tag { name, attributes }
}

proof fn lemma_reads_step(step: RawStepView)
    requires
        step.event matches RawEventView::Start(content, length) ==> reads_tag(content, length),
    ensures
        reads_step(step),
{
    assert forall|tag: WrittenTag|
        #[trigger] is_raw_tag(step.event, tag) && plain_tag(tag) && literal_tags(
            seq![tag],
        ) implies decoded_step(step).event == tag_event(tag) by {
        match tag {
            WrittenTag::Open(_, name, pairs) => {
                assert(seq![tag][0] == tag);
                assert(step.event->Start_0 == tag_content(name, pairs));
            },
            WrittenTag::Close(_, _) => {},
        }
    }
}

/// Decodes the attributes or the text of an event.
fn decode_step(step: RawStep) -> (r: Step)
    ensures
        r@ == decoded_step(step@),
        reads_step(step@),
{
    let ghost raw = step@;
    let position: usize = step.position;
    let event: Event = match step.event {
        RawEvent::Start(tag, name) => Event::Start(decode_tag(tag, name)),
        RawEvent::Empty(tag, name) => Event::Empty(decode_tag(tag, name)),
        RawEvent::End => Event::End,
        RawEvent::Text(raw) => {
            let text: Result<String, String> = unescape_text(&raw);
            Event::Text { raw, text }
        },
        RawEvent::Comment => Event::Comment,
        RawEvent::Declaration => Event::Declaration,
        RawEvent::Other => Event::Other,
        RawEvent::Finish => Event::Finish,
        RawEvent::Malformed(reason) => Event::Malformed(reason),
    };
    proof {
        lemma_reads_step(raw);
    }
    Step { event, position }
}

proof fn lemma_reads_tags(document: Seq<u8>)
    requires
        ({
            let all = document_steps(document);
            &&& forall|k: int| 0 <= k < all.len() ==> reads_step(#[trigger] all[k])
            &&& forall|tags: Seq<WrittenTag>|
                document == text_bytes(#[trigger] tags_text(tags)) && plain_tags(tags) && nested(
                    tags,
                    Seq::empty(),
                ) ==> gives_tags(all, tags)
        }),
    ensures
        reads_tags(document),
{
    let all = document_steps(document);
    let steps = decoded_steps(document);
    assert forall|tags: Seq<WrittenTag>|
        document == text_bytes(#[trigger] tags_text(tags)) && plain_tags(tags) && literal_tags(
            tags,
        ) && nested(tags, Seq::empty()) implies begins(
        steps,
        tag_events(tags).push(EventView::Finish),
    ) by {
        let events = tag_events(tags).push(EventView::Finish);
        assert(gives_tags(all, tags));
        assert forall|i: int| 0 <= i < events.len() implies (#[trigger] steps[i]).event
            == events[i] by {
            assert(reads_step(all[i]));
            if i < tags.len() {
                let one = seq![tags[i]];
                assert(literal_tags(one)) by {
                    assert(tags[i] matches WrittenTag::Open(_, _, pairs) ==> literal_values(pairs));
                }
                assert(is_raw_tag(all[i].event, tags[i]));
            }
        }
    }
}

/// Reads a document.
pub fn read_document(document: &Vec<u8>) -> (r: Vec<Step>)
    ensures
        r.deep_view() == decoded_steps(document@),
        reads_tags(document@),
{
    let mut reader: EventReader = open_document(document);
    let ghost all = document_steps(document@);
    let mut steps: Vec<Step> = Vec::new();
    assert(all.skip(0) =~= all);
    assert(steps.deep_view() =~= decoded_steps(document@).take(0));
    loop
        invariant
            all == document_steps(document@),
            complete(all),
            steps@.len() < all.len(),
            steps_left(reader) == all.skip(steps@.len() as int),
            steps.deep_view() == decoded_steps(document@).take(steps@.len() as int),
            forall|k: int| 0 <= k < steps@.len() ==> reads_step(#[trigger] all[k]),
            forall|tags: Seq<WrittenTag>|
                document@ == text_bytes(#[trigger] tags_text(tags)) && plain_tags(tags) && nested(
                    tags,
                    Seq::empty(),
                ) ==> gives_tags(all, tags),
        decreases all.len() - steps@.len(),
    {
        let ghost n = steps@.len() as int;
        let ghost before = steps.deep_view();
        let step: RawStep = next_step(&mut reader);
        assert(step@ == all[n]);
        assert(all.skip(n).drop_first() =~= all.skip(n + 1));
        let last: bool = match &step.event {
            RawEvent::Finish => true,
            RawEvent::Malformed(_) => true,
            _ => false,
        };
        assert(last == is_last(all[n].event));
        steps.push(decode_step(step));
        assert(steps.deep_view() =~= before.push(decoded_step(all[n])));
        assert(steps.deep_view() =~= decoded_steps(document@).take(n + 1));
        if last {
            assert(n == all.len() - 1);
            assert(steps.deep_view() =~= decoded_steps(document@));
            proof {
                lemma_reads_tags(document@);
            }
            return steps;
        }
    }
}

/// A writer of a document, which puts each tag on a line of its own and indents it.
#[verifier::external_body]
pub struct DocumentWriter {
    writer: quick_xml::Writer<Vec<u8>>,
}

/// What a writer has written.
pub uninterp spec fn written(writer: DocumentWriter) -> Seq<char>;

/// How many elements a writer has opened and not closed.
pub uninterp spec fn depth(writer: DocumentWriter) -> nat;

/// The beginning of a line at the given depth.
pub open spec fn new_line(depth: nat) -> Seq<char> {
    seq!['\n'] + Seq::new(depth * indent_width(), |i: int| ' ')
}

/// A document with one more tag at the given depth.
pub open spec fn tag_added(document: Seq<char>, depth: nat, tag: Seq<char>) -> Seq<char> {
    if document.len() == 0 {
        tag
    } else {
        document + new_line(depth) + tag
    }
}

/// Begins a document.
///
/// Calls `quick_xml::Writer::new_with_indent`: nothing is written yet.
#[verifier::external_body]
pub(crate) fn new_document() -> (r: DocumentWriter)
    ensures
        written(r) == Seq::<char>::empty(),
        depth(r) == 0,
{
    DocumentWriter { writer: quick_xml::Writer::new_with_indent(Vec::new(), b' ', 4) }
}

/// Writes an opening tag with the given content, name and attributes.
///
/// Calls `quick_xml::Writer::write_event` on a start event. The content goes between angle
/// brackets as it is, on a line of its own but for the first tag, indented by four blanks for
/// each open element. Writing to memory does not fail.
#[verifier::external_body]
pub(crate) fn write_open(writer: &mut DocumentWriter, content: &str)
    ensures
        written(*final(writer)) == tag_added(
            written(*old(writer)),
            depth(*old(writer)),
            seq!['<'] + content@ + seq!['>'],
        ),
        depth(*final(writer)) == depth(*old(writer)) + 1,
{
    let tag = BytesStart::owned_name(content.as_bytes());
    writer.writer.write_event(Found::Start(tag)).unwrap();
}

/// Writes a closing tag.
///
/// Calls `quick_xml::Writer::write_event` on an end event, which goes on a line of its own,
/// indented as the opening tag was. Writing to memory does not fail.
#[verifier::external_body]
pub(crate) fn write_close(writer: &mut DocumentWriter, name: &str)
    requires
        depth(*old(writer)) > 0,
    ensures
        written(*final(writer)) == tag_added(
            written(*old(writer)),
            (depth(*old(writer)) - 1) as nat,
            seq!['<', '/'] + name@ + seq!['>'],
        ),
        depth(*final(writer)) == depth(*old(writer)) - 1,
{
    let tag = BytesEnd::borrowed(name.as_bytes());
    writer.writer.write_event(Found::End(tag)).unwrap();
}

/// The document that has been written.
///
/// Calls `quick_xml::Writer::into_inner`. All that was written is text, so the bytes are UTF-8.
#[verifier::external_body]
pub(crate) fn finish_document(writer: DocumentWriter) -> (r: String)
    ensures
        r@ == written(writer),
{
    String::from_utf8(writer.writer.into_inner()).unwrap()
}

/// Every step of a document is decoded, in order, and stays the kind of step that it is.
pub proof fn law_steps_are_decoded_in_order(document: Seq<u8>, i: int)
    requires
        0 <= i < document_steps(document).len(),
    ensures
        ({
            let raw = document_steps(document)[i];
            let step = decoded_steps(document)[i];
            &&& decoded_steps(document).len() == document_steps(document).len()
            &&& step.position == raw.position
            &&& raw.event is Start <==> step.event is Start
            &&& raw.event is Empty <==> step.event is Empty
            &&& raw.event is End <==> step.event is End
            &&& raw.event is Comment <==> step.event is Comment
            &&& raw.event is Declaration <==> step.event is Declaration
            &&& raw.event is Finish <==> step.event is Finish
            &&& raw.event matches RawEventView::Text(bytes) ==> step.event == (EventView::Text {
                raw: bytes,
                text: character_text(bytes),
            })
            &&& raw.event matches RawEventView::Malformed(reason) ==> step.event
                == EventView::Malformed(reason)
        }),
{
}

/// Every attribute of a tag is decoded, in order: its key stays, and its value becomes the text
/// that it stands for, or the reason why it stands for none.
pub proof fn law_attributes_are_decoded_in_order(content: Seq<u8>, name_length: usize, i: int)
    requires
        name_length <= content.len(),
        0 <= i < tag_attributes(content, name_length).len(),
    ensures
        ({
            let tag = decoded_tag(content, name_length);
            &&& tag.name == content.take(name_length as int)
            &&& tag.attributes.len() == tag_attributes(content, name_length).len()
            &&& tag_attributes(content, name_length)[i] matches Ok((key, raw)) ==> tag.attributes[i]
                == (TagAttributeView::Pair { key, text: value_text(raw) })
            &&& tag_attributes(content, name_length)[i] matches Err(reason) ==> tag.attributes[i]
                == TagAttributeView::Malformed(reason)
        }),
{
}

} // verus!
