//! Tags as they are written.
use vstd::prelude::*;

use crate::text::join_with;

verus! {

/// The width of one level of indentation.
pub open spec fn indent_width() -> nat {
    4
}

/// Keys and values.
pub type Pairs = Seq<(Seq<char>, Seq<char>)>;

/// An attribute as it is written, with its value as it is.
pub open spec fn attribute_text(key: Seq<char>, value: Seq<char>) -> Seq<char> {
    " "@ + key + "=\""@ + value + "\""@
}

/// The blanks in front of a line.
pub open spec fn indentation(level: nat) -> Seq<char> {
    Seq::new(level * indent_width(), |i: int| ' ')
}

/// The line of an opening tag.
pub open spec fn opening(level: nat, name: Seq<char>, attributes: Seq<char>) -> Seq<char> {
    indentation(level) + (seq!['<'] + (name + attributes) + seq!['>'])
}

/// The line of a closing tag.
pub open spec fn closing(level: nat, name: Seq<char>) -> Seq<char> {
    indentation(level) + (seq!['<', '/'] + name + seq!['>'])
}

/// A tag as it is written: opening, with keys and values, or closing; how deep it stands, and its
/// name.
pub enum WrittenTag {
    Open(nat, Seq<char>, Pairs),
    Close(nat, Seq<char>),
}

/// Keys and values as they are written.
pub open spec fn pairs_text(pairs: Pairs) -> Seq<char>
    decreases pairs.len(),
{
    if pairs.len() == 0 {
        Seq::empty()
    } else {
        attribute_text(pairs[0].0, pairs[0].1) + pairs_text(pairs.drop_first())
    }
}

/// The line that a tag is written on.
pub open spec fn tag_line(tag: WrittenTag) -> Seq<char> {
    match tag {
        WrittenTag::Open(level, name, pairs) => opening(level, name, pairs_text(pairs)),
        WrittenTag::Close(level, name) => closing(level, name),
    }
}

/// The lines that tags are written on.
pub open spec fn tag_lines(tags: Seq<WrittenTag>) -> Seq<Seq<char>> {
    tags.map_values(|t: WrittenTag| tag_line(t))
}

/// Tags as they are written, each on a line of its own.
pub open spec fn tags_text(tags: Seq<WrittenTag>) -> Seq<char> {
    join_with(tag_lines(tags), seq!['\n'])
}

/// A name of small letters and hyphens.
pub open spec fn is_plain_name(name: Seq<char>) -> bool {
    &&& name.len() > 0
    &&& forall|i: int| 0 <= i < name.len() ==> 'a' <= #[trigger] name[i] <= 'z' || name[i] == '-'
}

/// The keys are plain and distinct.
pub open spec fn plain_keys(pairs: Pairs) -> bool {
    &&& forall|i: int| 0 <= i < pairs.len() ==> is_plain_name((#[trigger] pairs[i]).0)
    &&& forall|i: int, j: int|
        0 <= i < j < pairs.len() ==> (#[trigger] pairs[i]).0 != (#[trigger] pairs[j]).0
}

/// No value holds the quote that would end it.
pub open spec fn unquoted_values(pairs: Pairs) -> bool {
    forall|i: int| 0 <= i < pairs.len() ==> !(#[trigger] pairs[i]).1.contains('"')
}

/// The keys are plain and distinct, and no value holds the quote that would end it.
pub open spec fn plain_pairs(pairs: Pairs) -> bool {
    plain_keys(pairs) && unquoted_values(pairs)
}

/// No value holds a character that stands for another.
pub open spec fn literal_values(pairs: Pairs) -> bool {
    forall|i: int| 0 <= i < pairs.len() ==> !(#[trigger] pairs[i]).1.contains('&')
}

/// A tag whose name is plain, and whose keys and values are.
pub open spec fn plain_tag(tag: WrittenTag) -> bool {
    match tag {
        WrittenTag::Open(_, name, pairs) => is_plain_name(name) && plain_pairs(pairs),
        WrittenTag::Close(_, name) => is_plain_name(name),
    }
}

/// All the tags are plain.
pub open spec fn plain_tags(tags: Seq<WrittenTag>) -> bool {
    forall|i: int| 0 <= i < tags.len() ==> plain_tag(#[trigger] tags[i])
}

/// No value in the tags holds a character that stands for another.
pub open spec fn literal_tags(tags: Seq<WrittenTag>) -> bool {
    forall|i: int|
        0 <= i < tags.len() ==> (#[trigger] tags[i] matches WrittenTag::Open(_, _, pairs)
            ==> literal_values(pairs))
}

/// Every tag that opens is closed, and so are those that are open already, the innermost first.
pub open spec fn nested(tags: Seq<WrittenTag>, open: Seq<Seq<char>>) -> bool
    decreases tags.len(),
{
    if tags.len() == 0 {
        open.len() == 0
    } else {
        match tags[0] {
            WrittenTag::Open(_, name, _) => nested(tags.drop_first(), open.push(name)),
            WrittenTag::Close(_, name) => open.len() > 0 && open.last() == name && nested(
                tags.drop_first(),
                open.drop_last(),
            ),
        }
    }
}

} // verus!
