//! What reading the attributes of an element gives, wherever in the tag they stand.
use vstd::prelude::*;

use crate::manifest::elements::{
    default_of, element_fields, field_position, first_missing, fits, no_values, operation_of,
    project_of, read_annotation, read_element, read_fields, remote_of, repo_hooks_of,
    superproject_of, AttributeErrorView, Element, FieldView,
};
use crate::manifest::readback::lemma_bytes_tell;
use crate::manifest::FileOperationView;
use crate::text::{bool_value, split_on, text_bytes, u32_value};
use crate::xml::{TagAttributeView, TagView};

verus! {

/// The attribute of a name with a text as its value.
pub open spec fn pair(name: Seq<char>, text: Seq<char>) -> TagAttributeView {
    TagAttributeView::Pair { key: text_bytes(name), text: Ok(text) }
}

/// The attribute is one that the field takes.
pub open spec fn is_for(attribute: TagAttributeView, field: FieldView) -> bool {
    exists|text: Seq<char>|
        attribute == #[trigger] pair(field.name, text) && fits(field.kind, text)
}

/// The attribute is one that some field takes.
pub open spec fn is_taken(attribute: TagAttributeView, fields: Seq<FieldView>) -> bool {
    exists|f: int| 0 <= f < fields.len() && is_for(attribute, #[trigger] fields[f])
}

/// Each of the attributes is one that a field takes, and no two have the same name.
pub open spec fn well_formed(
    attributes: Seq<TagAttributeView>,
    fields: Seq<FieldView>,
) -> bool {
    &&& forall|k: int| 0 <= k < attributes.len() ==> is_taken(#[trigger] attributes[k], fields)
    &&& forall|k: int, l: int|
        0 <= k < l < attributes.len() ==> (#[trigger] attributes[k])->key != (
        #[trigger] attributes[l])->key
}

/// No two fields have the same name.
pub open spec fn distinct_fields(fields: Seq<FieldView>) -> bool {
    forall|i: int, j: int|
        0 <= i < j < fields.len() ==> (#[trigger] fields[i]).name != (#[trigger] fields[j]).name
}

/// A field is found by its name.
proof fn lemma_field_found(fields: Seq<FieldView>, i: int)
    requires
        distinct_fields(fields),
        0 <= i < fields.len(),
    ensures
        field_position(fields, text_bytes(fields[i].name)) == i,
    decreases fields.len(),
{
    if i > 0 {
        let rest = fields.drop_first();
        assert(fields[0].name != fields[i].name);
        lemma_bytes_tell(fields[0].name, fields[i].name);
        assert forall|a: int, b: int| 0 <= a < b < rest.len() implies (#[trigger] rest[a]).name != (
        #[trigger] rest[b]).name by {
            assert(fields[a + 1].name != fields[b + 1].name);
        }
        assert(rest[i - 1] == fields[i]);
        lemma_field_found(rest, i - 1);
    }
}

/// No field is found by a name that none has.
proof fn lemma_field_not_found(fields: Seq<FieldView>, key: Seq<u8>)
    requires
        forall|i: int| 0 <= i < fields.len() ==> text_bytes((#[trigger] fields[i]).name) != key,
    ensures
        field_position(fields, key) == fields.len(),
    decreases fields.len(),
{
    if fields.len() > 0 {
        let rest = fields.drop_first();
        assert forall|i: int| 0 <= i < rest.len() implies text_bytes((#[trigger] rest[i]).name)
            != key by {
            assert(rest[i] == fields[i + 1]);
        }
        lemma_field_not_found(rest, key);
    }
}

/// The values after an attribute that a field takes.
spec fn entered_one(
    attribute: TagAttributeView,
    fields: Seq<FieldView>,
    values: Seq<Option<Seq<char>>>,
) -> Seq<Option<Seq<char>>> {
    let f = field_position(fields, attribute->key) as int;
    if fields[f].kind is Ignored {
        values
    } else {
        values.update(f, Some(attribute->text->Ok_0))
    }
}

/// The values after attributes that fields take.
spec fn entered(
    attributes: Seq<TagAttributeView>,
    fields: Seq<FieldView>,
    values: Seq<Option<Seq<char>>>,
) -> Seq<Option<Seq<char>>>
    decreases attributes.len(),
{
    if attributes.len() == 0 {
        values
    } else {
        entered(attributes.drop_first(), fields, entered_one(attributes[0], fields, values))
    }
}

/// The first attribute is one that a field takes, and the others are well formed on their own.
proof fn lemma_first_attribute(
    attributes: Seq<TagAttributeView>,
    fields: Seq<FieldView>,
) -> (f: int)
    requires
        distinct_fields(fields),
        well_formed(attributes, fields),
        attributes.len() > 0,
    ensures
        0 <= f < fields.len(),
        is_for(attributes[0], fields[f]),
        field_position(fields, attributes[0]->key) == f,
        attributes[0]->key == text_bytes(fields[f].name),
        well_formed(attributes.drop_first(), fields),
        forall|l: int| 1 <= l < attributes.len() ==> (#[trigger] attributes[l])->key
            != attributes[0]->key,
{
    let rest = attributes.drop_first();
    let f = choose|f: int| 0 <= f < fields.len() && is_for(attributes[0], #[trigger] fields[f]);
    assert(is_taken(attributes[0], fields));
    lemma_field_found(fields, f);
    assert forall|k: int| 0 <= k < rest.len() implies is_taken(#[trigger] rest[k], fields) by {
        assert(rest[k] == attributes[k + 1]);
    }
    assert forall|k: int, l: int| 0 <= k < l < rest.len() implies (#[trigger] rest[k])->key != (
    #[trigger] rest[l])->key by {
        assert(attributes[k + 1]->key != attributes[l + 1]->key);
    }
    f
}

/// Attributes that fields take are entered, and reading goes on with what follows them.
proof fn lemma_read_on(
    attributes: Seq<TagAttributeView>,
    more: Seq<TagAttributeView>,
    fields: Seq<FieldView>,
    values: Seq<Option<Seq<char>>>,
    unknown: Seq<Seq<u8>>,
)
    requires
        distinct_fields(fields),
        well_formed(attributes, fields),
        values.len() == fields.len(),
        forall|i: int, k: int|
            0 <= i < fields.len() && 0 <= k < attributes.len() && #[trigger] values[i] is Some ==> (
            #[trigger] attributes[k])->key != text_bytes(fields[i].name),
    ensures
        read_fields(attributes + more, fields, values, unknown) == read_fields(
            more,
            fields,
            entered(attributes, fields, values),
            unknown,
        ),
        entered(attributes, fields, values).len() == fields.len(),
    decreases attributes.len(),
{
    if attributes.len() == 0 {
        assert(attributes + more =~= more);
    } else {
        let f = lemma_first_attribute(attributes, fields);
        let rest = attributes.drop_first();
        let next = entered_one(attributes[0], fields, values);
        assert((attributes + more).drop_first() =~= rest + more);
        assert((attributes + more)[0] == attributes[0]);
        assert forall|i: int, k: int|
            0 <= i < fields.len() && 0 <= k < rest.len() && #[trigger] next[i] is Some implies (
        #[trigger] rest[k])->key != text_bytes(fields[i].name) by {
            assert(rest[k] == attributes[k + 1]);
            if i != f {
                assert(values[i] is Some);
            }
        }
        assert(values[f] is None) by {
            if values[f] is Some {
                assert(attributes[0]->key != text_bytes(fields[f].name));
            }
        }
        lemma_read_on(rest, more, fields, next, unknown);
    }
}

/// A field whose attribute is there has its text as its value.
proof fn lemma_entered_hit(
    attributes: Seq<TagAttributeView>,
    fields: Seq<FieldView>,
    values: Seq<Option<Seq<char>>>,
    k: int,
    i: int,
)
    requires
        distinct_fields(fields),
        well_formed(attributes, fields),
        values.len() == fields.len(),
        0 <= k < attributes.len(),
        0 <= i < fields.len(),
        !(fields[i].kind is Ignored),
        attributes[k]->key == text_bytes(fields[i].name),
    ensures
        entered(attributes, fields, values)[i] == Some(attributes[k]->text->Ok_0),
    decreases attributes.len(),
{
    let f = lemma_first_attribute(attributes, fields);
    let rest = attributes.drop_first();
    let next = entered_one(attributes[0], fields, values);
    lemma_field_found(fields, i);
    if k == 0 {
        assert forall|l: int| 0 <= l < rest.len() implies (#[trigger] rest[l])->key != text_bytes(
            fields[i].name,
        ) by {
            assert(rest[l] == attributes[l + 1]);
        }
        lemma_entered_miss(rest, fields, next, i);
    } else {
        assert(rest[k - 1] == attributes[k]);
        lemma_entered_hit(rest, fields, next, k - 1, i);
    }
}

/// A field whose attribute is not there keeps its value.
proof fn lemma_entered_miss(
    attributes: Seq<TagAttributeView>,
    fields: Seq<FieldView>,
    values: Seq<Option<Seq<char>>>,
    i: int,
)
    requires
        distinct_fields(fields),
        well_formed(attributes, fields),
        values.len() == fields.len(),
        0 <= i < fields.len(),
        fields[i].kind is Ignored || forall|l: int|
            0 <= l < attributes.len() ==> (#[trigger] attributes[l])->key != text_bytes(
                fields[i].name,
            ),
    ensures
        entered(attributes, fields, values)[i] == values[i],
    decreases attributes.len(),
{
    if attributes.len() > 0 {
        let f = lemma_first_attribute(attributes, fields);
        let rest = attributes.drop_first();
        let next = entered_one(attributes[0], fields, values);
        assert forall|l: int| 0 <= l < rest.len() && !(fields[i].kind is Ignored) implies (
        #[trigger] rest[l])->key != text_bytes(fields[i].name) by {
            assert(rest[l] == attributes[l + 1]);
        }
        lemma_entered_miss(rest, fields, next, i);
    }
}

/// The first required field without a value is the one that is missing.
proof fn lemma_missing(fields: Seq<FieldView>, values: Seq<Option<Seq<char>>>, i: int)
    requires
        fields.len() == values.len(),
        0 <= i <= fields.len(),
        forall|j: int| 0 <= j < i && (#[trigger] fields[j]).required ==> values[j] is Some,
    ensures
        i == fields.len() ==> first_missing(fields, values) is None,
        i < fields.len() && fields[i].required && values[i] is None ==> first_missing(
            fields,
            values,
        ) == Some(fields[i].name),
    decreases fields.len(),
{
    if i > 0 {
        let fs = fields.drop_first();
        let vs = values.drop_first();
        assert(fields[0].required ==> values[0] is Some);
        assert forall|j: int| 0 <= j < i - 1 && (#[trigger] fs[j]).required implies vs[j]
            is Some by {
            assert(fs[j] == fields[j + 1]);
        }
        lemma_missing(fs, vs, i - 1);
    }
}

/// Reading attributes does not depend on where in the tag they stand: a field has a value exactly
/// where the tag holds a pair of its name, and the value is that pair's text, unless nothing is
/// made of the field. Nothing is unknown, and nothing is wrong unless a required field has no
/// pair.
pub proof fn law_values_wherever_they_stand(
    attributes: Seq<TagAttributeView>,
    fields: Seq<FieldView>,
    i: int,
    text: Seq<char>,
)
    requires
        distinct_fields(fields),
        well_formed(attributes, fields),
        0 <= i < fields.len(),
    ensures
        ({
            let read = read_fields(attributes, fields, no_values(fields.len()), Seq::empty());
            &&& read.values.len() == fields.len()
            &&& read.unknown.len() == 0
            &&& !(fields[i].kind is Ignored) ==> (read.values[i] == Some(text)
                <==> attributes.contains(pair(fields[i].name, text)))
            &&& fields[i].kind is Ignored ==> read.values[i] is None
            &&& read.error is None <==> forall|j: int|
                0 <= j < fields.len() && (#[trigger] fields[j]).required ==> read.values[j] is Some
            &&& fields[i].required && read.values[i] is None && (forall|j: int|
                0 <= j < i && (#[trigger] fields[j]).required ==> read.values[j] is Some)
                ==> read.error == Some(AttributeErrorView::Missing(fields[i].name))
        }),
{
    let none = no_values(fields.len());
    let read = read_fields(attributes, fields, none, Seq::empty());
    assert(attributes + Seq::empty() =~= attributes);
    lemma_read_on(attributes, Seq::empty(), fields, none, Seq::empty());
    let values = entered(attributes, fields, none);
    if !(fields[i].kind is Ignored) {
        if exists|k: int|
            0 <= k < attributes.len() && (#[trigger] attributes[k])->key == text_bytes(
                fields[i].name,
            ) {
            let k = choose|k: int|
                0 <= k < attributes.len() && (#[trigger] attributes[k])->key == text_bytes(
                    fields[i].name,
                );
            lemma_entered_hit(attributes, fields, none, k, i);
            lemma_is_pair(attributes, fields, k);
            if values[i] == Some(text) {
                assert(attributes[k] == pair(fields[i].name, text));
            }
            if attributes.contains(pair(fields[i].name, text)) {
                let l = choose|l: int|
                    0 <= l < attributes.len() && attributes[l] == pair(fields[i].name, text);
                if l < k {
                    assert(attributes[l]->key != attributes[k]->key);
                } else if k < l {
                    assert(attributes[k]->key != attributes[l]->key);
                }
            }
        } else {
            lemma_entered_miss(attributes, fields, none, i);
            if attributes.contains(pair(fields[i].name, text)) {
                let l = choose|l: int|
                    0 <= l < attributes.len() && attributes[l] == pair(fields[i].name, text);
                assert(attributes[l]->key == text_bytes(fields[i].name));
            }
        }
    } else {
        lemma_entered_miss(attributes, fields, none, i);
    }
    lemma_missing_iff(fields, values);
    if fields[i].required && values[i] is None && (forall|j: int|
        0 <= j < i && (#[trigger] fields[j]).required ==> values[j] is Some) {
        lemma_missing(fields, values, i);
    }
}

/// A well formed attribute is a pair.
proof fn lemma_is_pair(attributes: Seq<TagAttributeView>, fields: Seq<FieldView>, k: int)
    requires
        well_formed(attributes, fields),
        0 <= k < attributes.len(),
    ensures
        attributes[k] is Pair,
        attributes[k]->text is Ok,
{
    assert(is_taken(attributes[k], fields));
}

/// Nothing is missing exactly where every required field has a value.
proof fn lemma_missing_iff(fields: Seq<FieldView>, values: Seq<Option<Seq<char>>>)
    requires
        fields.len() == values.len(),
    ensures
        first_missing(fields, values) is None <==> forall|j: int|
            0 <= j < fields.len() && (#[trigger] fields[j]).required ==> values[j] is Some,
    decreases fields.len(),
{
    if fields.len() > 0 {
        let fs = fields.drop_first();
        let vs = values.drop_first();
        lemma_missing_iff(fs, vs);
        if forall|j: int|
            0 <= j < fields.len() && (#[trigger] fields[j]).required ==> values[j] is Some {
            lemma_missing(fields, values, fields.len() as int);
        } else {
            let j = choose|j: int|
                0 <= j < fields.len() && (#[trigger] fields[j]).required && values[j] is None;
            if j > 0 {
                assert(fs[j - 1] == fields[j] && vs[j - 1] == values[j]);
                assert(fs[j - 1].required);
            }
        }
    }
}

/// An attribute of which nothing is made may stand anywhere in a tag, or not at all: what is read
/// is the same, errors and all.
pub proof fn law_ignored_attribute_changes_nothing(
    a: Seq<TagAttributeView>,
    b: Seq<TagAttributeView>,
    fields: Seq<FieldView>,
    values: Seq<Option<Seq<char>>>,
    unknown: Seq<Seq<u8>>,
    i: int,
    text: Seq<char>,
)
    requires
        distinct_fields(fields),
        0 <= i < fields.len(),
        fields[i].kind is Ignored,
    ensures
        read_fields(a + seq![pair(fields[i].name, text)] + b, fields, values, unknown)
            == read_fields(a + b, fields, values, unknown),
    decreases a.len(),
{
    let ignored = pair(fields[i].name, text);
    let long = a + seq![ignored] + b;
    if a.len() == 0 {
        lemma_field_found(fields, i);
        assert(long.drop_first() =~= b);
        assert(long[0] == ignored);
        assert(a + b =~= b);
    } else {
        let rest = a.drop_first();
        assert(long.drop_first() =~= rest + seq![ignored] + b);
        assert((a + b).drop_first() =~= rest + b);
        assert(long[0] == a[0] && (a + b)[0] == a[0]);
        let f = field_position(fields, a[0]->key) as int;
        law_ignored_attribute_changes_nothing(rest, b, fields, values, unknown, i, text);
        law_ignored_attribute_changes_nothing(
            rest,
            b,
            fields,
            values,
            unknown.push(a[0]->key),
            i,
            text,
        );
        law_ignored_attribute_changes_nothing(
            rest,
            b,
            fields,
            values.update(f, Some(a[0]->text->Ok_0)),
            unknown,
            i,
            text,
        );
    }
}

/// An attribute that the element cannot have is noted by its name, and changes nothing else of what
/// is read, wherever it stands.
pub proof fn law_unknown_attribute_is_noted(
    a: Seq<TagAttributeView>,
    b: Seq<TagAttributeView>,
    fields: Seq<FieldView>,
    values: Seq<Option<Seq<char>>>,
    unknown: Seq<Seq<u8>>,
    key: Seq<u8>,
    text: Seq<char>,
)
    requires
        forall|i: int| 0 <= i < fields.len() ==> text_bytes((#[trigger] fields[i]).name) != key,
    ensures
        ({
            let stray = TagAttributeView::Pair { key, text: Ok(text) };
            let with = read_fields(a + seq![stray] + b, fields, values, unknown);
            let without = read_fields(a + b, fields, values, unknown);
            &&& with.values == without.values
            &&& with.error == without.error
            &&& without.error is None ==> with.unknown.contains(key) && with.unknown.len()
                == without.unknown.len() + 1
        }),
    decreases a.len() + b.len(),
{
    lemma_unknown_noted(a, b, fields, values, unknown, unknown, key, text);
}

/// What is unknown already makes no difference to what is read.
proof fn lemma_unknown_noted(
    a: Seq<TagAttributeView>,
    b: Seq<TagAttributeView>,
    fields: Seq<FieldView>,
    values: Seq<Option<Seq<char>>>,
    unknown: Seq<Seq<u8>>,
    other: Seq<Seq<u8>>,
    key: Seq<u8>,
    text: Seq<char>,
)
    requires
        forall|i: int| 0 <= i < fields.len() ==> text_bytes((#[trigger] fields[i]).name) != key,
    ensures
        ({
            let stray = TagAttributeView::Pair { key, text: Ok(text) };
            let with = read_fields(a + seq![stray] + b, fields, values, unknown);
            let without = read_fields(a + b, fields, values, other);
            &&& with.values == without.values
            &&& with.error == without.error
            &&& without.error is None ==> with.unknown.contains(key) && with.unknown.len()
                + other.len() == without.unknown.len() + unknown.len() + 1
        }),
    decreases a.len(),
{
    let stray = TagAttributeView::Pair { key, text: Ok(text) };
    let long = a + seq![stray] + b;
    if a.len() == 0 {
        lemma_field_not_found(fields, key);
        assert(long.drop_first() =~= b);
        assert(long[0] == stray);
        assert(a + b =~= b);
        assert(unknown.push(key)[unknown.len() as int] == key);
        lemma_unknown_kept(b, fields, values, unknown.push(key), other, key);
    } else {
        let rest = a.drop_first();
        assert(long.drop_first() =~= rest + seq![stray] + b);
        assert((a + b).drop_first() =~= rest + b);
        assert(long[0] == a[0] && (a + b)[0] == a[0]);
        let f = field_position(fields, a[0]->key) as int;
        lemma_unknown_noted(rest, b, fields, values, unknown, other, key, text);
        lemma_unknown_noted(
            rest,
            b,
            fields,
            values,
            unknown.push(a[0]->key),
            other.push(a[0]->key),
            key,
            text,
        );
        lemma_unknown_noted(
            rest,
            b,
            fields,
            values.update(f, Some(a[0]->text->Ok_0)),
            unknown,
            other,
            key,
            text,
        );
    }
}

/// What was noted stays noted, and as many more are noted whatever was noted before.
proof fn lemma_unknown_kept(
    attributes: Seq<TagAttributeView>,
    fields: Seq<FieldView>,
    values: Seq<Option<Seq<char>>>,
    unknown: Seq<Seq<u8>>,
    other: Seq<Seq<u8>>,
    key: Seq<u8>,
)
    requires
        unknown.contains(key),
    ensures
        ({
            let x = read_fields(attributes, fields, values, unknown);
            let y = read_fields(attributes, fields, values, other);
            &&& x.values == y.values
            &&& x.error == y.error
            &&& x.unknown.contains(key)
            &&& x.unknown.len() + other.len() == y.unknown.len() + unknown.len()
        }),
    decreases attributes.len(),
{
    if attributes.len() > 0 {
        let rest = attributes.drop_first();
        let f = field_position(fields, attributes[0]->key) as int;
        let n = choose|n: int| 0 <= n < unknown.len() && unknown[n] == key;
        assert(unknown.push(attributes[0]->key)[n] == key);
        lemma_unknown_kept(rest, fields, values, unknown, other, key);
        lemma_unknown_kept(
            rest,
            fields,
            values,
            unknown.push(attributes[0]->key),
            other.push(attributes[0]->key),
            key,
        );
        lemma_unknown_kept(
            rest,
            fields,
            values.update(f, Some(attributes[0]->text->Ok_0)),
            unknown,
            other,
            key,
        );
    }
}

/// Behind attributes that are as they should be, the first that is not is what is wrong: one that
/// is no attribute, one whose value is no text, one whose field has a value already, and one whose
/// value does not fit its field.
pub proof fn law_first_wrong_attribute_counts(
    a: Seq<TagAttributeView>,
    wrong: TagAttributeView,
    b: Seq<TagAttributeView>,
    fields: Seq<FieldView>,
    i: int,
    k: int,
    text: Seq<char>,
)
    requires
        distinct_fields(fields),
        well_formed(a, fields),
        0 <= i < fields.len(),
    ensures
        ({
            let error = read_fields(
                a + seq![wrong] + b,
                fields,
                no_values(fields.len()),
                Seq::empty(),
            ).error;
            &&& wrong matches TagAttributeView::Malformed(reason) ==> error == Some(
                AttributeErrorView::Malformed(reason),
            )
            &&& wrong matches TagAttributeView::Pair { text: Err(reason), .. } ==> error == Some(
                AttributeErrorView::BadText(reason),
            )
            &&& !(fields[i].kind is Ignored) && wrong == pair(fields[i].name, text) && 0 <= k
                < a.len() && a[k]->key == text_bytes(fields[i].name) ==> error == Some(
                AttributeErrorView::Repeated(fields[i].name),
            )
            &&& wrong == pair(fields[i].name, text) && (fields[i].kind is Number && u32_value(text)
                is None || fields[i].kind is Boolean && bool_value(text) is None) && (forall|l: int|
                0 <= l < a.len() ==> (#[trigger] a[l])->key != text_bytes(fields[i].name))
                ==> error == Some(AttributeErrorView::BadValue(fields[i].name))
        }),
{
    let none = no_values(fields.len());
    let more = seq![wrong] + b;
    assert(a + seq![wrong] + b =~= a + more);
    lemma_read_on(a, more, fields, none, Seq::empty());
    assert(more[0] == wrong);
    lemma_field_found(fields, i);
    if !(fields[i].kind is Ignored) {
        if 0 <= k < a.len() && a[k]->key == text_bytes(fields[i].name) {
            lemma_entered_hit(a, fields, none, k, i);
        }
        if forall|l: int| 0 <= l < a.len() ==> (#[trigger] a[l])->key != text_bytes(
            fields[i].name,
        ) {
            lemma_entered_miss(a, fields, none, i);
        }
    }
}

/// The attribute is a pair of the name.
pub open spec fn is_named(attribute: TagAttributeView, name: Seq<char>) -> bool {
    exists|text: Seq<char>| attribute == #[trigger] pair(name, text)
}

/// The attribute is a pair of one of the names.
pub open spec fn is_named_among(attribute: TagAttributeView, names: Seq<Seq<char>>) -> bool {
    exists|n: int| 0 <= n < names.len() && is_named(attribute, #[trigger] names[n])
}

/// Each of the attributes is a pair of one of the names, and no two have the same name.
pub open spec fn named(attributes: Seq<TagAttributeView>, names: Seq<Seq<char>>) -> bool {
    &&& forall|k: int|
        0 <= k < attributes.len() ==> is_named_among(#[trigger] attributes[k], names)
    &&& forall|k: int, l: int|
        0 <= k < l < attributes.len() ==> (#[trigger] attributes[k])->key != (
        #[trigger] attributes[l])->key
}

/// The tag holds a pair of the name.
pub open spec fn has(tag: TagView, name: Seq<char>) -> bool {
    exists|text: Seq<char>| tag.attributes.contains(#[trigger] pair(name, text))
}

/// No two fields of an element have the same name.
pub proof fn law_fields_distinct(element: Element)
    ensures
        distinct_fields(element_fields(element)),
{
    reveal_strlit("name");
    reveal_strlit("alias");
    reveal_strlit("fetch");
    reveal_strlit("review");
    reveal_strlit("revision");
    reveal_strlit("remote");
    reveal_strlit("sync-j");
    reveal_strlit("sync-c");
    reveal_strlit("upstream");
    reveal_strlit("in-project");
    reveal_strlit("enabled-list");
    reveal_strlit("path");
    reveal_strlit("dest-branch");
    reveal_strlit("groups");
    reveal_strlit("clone-depth");
    reveal_strlit("src");
    reveal_strlit("dest");
    reveal_strlit("value");
    let fields = element_fields(element);
    assert forall|i: int, j: int| 0 <= i < j < fields.len() implies (#[trigger] fields[i]).name != (
    #[trigger] fields[j]).name by {
        let a = fields[i].name;
        let b = fields[j].name;
        assert(a.len() != b.len() || a[0] != b[0] || a[5] != b[5]);
    }
}

/// Pairs of the fields' names whose values fit are well formed.
proof fn lemma_named_well_formed(
    attributes: Seq<TagAttributeView>,
    names: Seq<Seq<char>>,
    fields: Seq<FieldView>,
)
    requires
        named(attributes, names),
        names.len() == fields.len(),
        forall|n: int| 0 <= n < names.len() ==> (#[trigger] fields[n]).name == names[n],
        forall|n: int, text: Seq<char>|
            0 <= n < names.len() && attributes.contains(#[trigger] pair(names[n], text)) ==> fits(
                fields[n].kind,
                text,
            ),
    ensures
        well_formed(attributes, fields),
{
    assert forall|k: int| 0 <= k < attributes.len() implies is_taken(
        #[trigger] attributes[k],
        fields,
    ) by {
        assert(is_named_among(attributes[k], names));
        let n = choose|n: int| 0 <= n < names.len() && is_named(attributes[k], #[trigger] names[n]);
        let text = choose|text: Seq<char>| attributes[k] == #[trigger] pair(names[n], text);
        assert(attributes.contains(pair(names[n], text)));
        assert(fields[n].name == names[n]);
        assert(is_for(attributes[k], fields[n]));
    }
}

/// What a field's value is, over all texts.
proof fn lemma_value(attributes: Seq<TagAttributeView>, fields: Seq<FieldView>, i: int)
    requires
        distinct_fields(fields),
        well_formed(attributes, fields),
        0 <= i < fields.len(),
        !(fields[i].kind is Ignored),
    ensures
        ({
            let read = read_fields(attributes, fields, no_values(fields.len()), Seq::empty());
            &&& forall|text: Seq<char>|
                read.values[i] == Some(text) <==> attributes.contains(
                    #[trigger] pair(fields[i].name, text),
                )
            &&& read.values[i] is Some <==> exists|text: Seq<char>|
                attributes.contains(#[trigger] pair(fields[i].name, text))
            &&& read.error is None <==> forall|j: int|
                0 <= j < fields.len() && (#[trigger] fields[j]).required ==> read.values[j] is Some
        }),
{
    let read = read_fields(attributes, fields, no_values(fields.len()), Seq::empty());
    assert forall|text: Seq<char>|
        read.values[i] == Some(text) <==> attributes.contains(
            #[trigger] pair(fields[i].name, text),
        ) by {
        law_values_wherever_they_stand(attributes, fields, i, text);
    }
    if read.values[i] is Some {
        assert(attributes.contains(pair(fields[i].name, read.values[i]->0)));
    }
    law_values_wherever_they_stand(attributes, fields, i, Seq::empty());
}

/// A `<project>` is accepted exactly where it has a name. Its name, path, remote, revision and
/// destination branch are the texts of the pairs of these names, its groups are the pieces between
/// the commas of theirs, and its other two values are what theirs stand for; `upstream` may be
/// there and means nothing.
pub proof fn law_project_is_what_its_tag_says(
    tag: TagView,
    operations: Seq<FileOperationView>,
    text: Seq<char>,
)
    requires
        named(
            tag.attributes,
            seq![
                "name"@,
                "path"@,
                "remote"@,
                "revision"@,
                "dest-branch"@,
                "groups"@,
                "sync-c"@,
                "clone-depth"@,
                "upstream"@,
            ],
        ),
        forall|t: Seq<char>|
            tag.attributes.contains(#[trigger] pair("sync-c"@, t)) ==> bool_value(t) is Some,
        forall|t: Seq<char>|
            tag.attributes.contains(#[trigger] pair("clone-depth"@, t)) ==> u32_value(t) is Some,
    ensures
        ({
            let read = read_element(Element::Project, tag);
            let project = project_of(read.values, operations);
            &&& read.error is None <==> has(tag, "name"@)
            &&& read.unknown.len() == 0
            &&& tag.attributes.contains(pair("name"@, text)) ==> project.name == text
            &&& project.path == Some(text) <==> tag.attributes.contains(pair("path"@, text))
            &&& project.remote == Some(text) <==> tag.attributes.contains(pair("remote"@, text))
            &&& project.revision == Some(text) <==> tag.attributes.contains(pair("revision"@, text))
            &&& project.dest_branch == Some(text) <==> tag.attributes.contains(
                pair("dest-branch"@, text),
            )
            &&& tag.attributes.contains(pair("groups"@, text)) ==> project.groups == Some(
                split_on(text, ','),
            )
            &&& project.groups is Some <==> has(tag, "groups"@)
            &&& tag.attributes.contains(pair("sync-c"@, text)) ==> project.sync_c == bool_value(text)
            &&& project.sync_c is Some <==> has(tag, "sync-c"@)
            &&& tag.attributes.contains(pair("clone-depth"@, text)) ==> project.clone_depth
                == u32_value(text)
            &&& project.clone_depth is Some <==> has(tag, "clone-depth"@)
            &&& project.file_operations == operations
            &&& project.annotations.len() == 0
        }),
{
    let fields = element_fields(Element::Project);
    let names = seq![
        "name"@,
        "path"@,
        "remote"@,
        "revision"@,
        "dest-branch"@,
        "groups"@,
        "sync-c"@,
        "clone-depth"@,
        "upstream"@,
    ];
    law_fields_distinct(Element::Project);
    lemma_named_well_formed(tag.attributes, names, fields);
    let read = read_element(Element::Project, tag);
    lemma_value(tag.attributes, fields, 0);
    lemma_value(tag.attributes, fields, 1);
    lemma_value(tag.attributes, fields, 2);
    lemma_value(tag.attributes, fields, 3);
    lemma_value(tag.attributes, fields, 4);
    lemma_value(tag.attributes, fields, 5);
    lemma_value(tag.attributes, fields, 6);
    lemma_value(tag.attributes, fields, 7);
    law_values_wherever_they_stand(tag.attributes, fields, 0, text);
    assert(fields[0].required);
    if let Some(t) = read.values[6] {
        assert(tag.attributes.contains(pair("sync-c"@, t)));
    }
    if let Some(t) = read.values[7] {
        assert(tag.attributes.contains(pair("clone-depth"@, t)));
    }
}

/// A `<remote>` is accepted exactly where it has a name and a URL to fetch from, and is made of the
/// texts of its pairs.
pub proof fn law_remote_is_what_its_tag_says(tag: TagView, text: Seq<char>)
    requires
        named(tag.attributes, seq!["name"@, "alias"@, "fetch"@, "review"@, "revision"@]),
    ensures
        ({
            let read = read_element(Element::Remote, tag);
            let remote = remote_of(read.values);
            &&& read.error is None <==> has(tag, "name"@) && has(tag, "fetch"@)
            &&& read.unknown.len() == 0
            &&& tag.attributes.contains(pair("name"@, text)) ==> remote.name == text
            &&& remote.alias == Some(text) <==> tag.attributes.contains(pair("alias"@, text))
            &&& tag.attributes.contains(pair("fetch"@, text)) ==> remote.fetch == text
            &&& remote.review == Some(text) <==> tag.attributes.contains(pair("review"@, text))
            &&& remote.revision == Some(text) <==> tag.attributes.contains(pair("revision"@, text))
        }),
{
    let fields = element_fields(Element::Remote);
    let names = seq!["name"@, "alias"@, "fetch"@, "review"@, "revision"@];
    law_fields_distinct(Element::Remote);
    lemma_named_well_formed(tag.attributes, names, fields);
    lemma_value(tag.attributes, fields, 0);
    lemma_value(tag.attributes, fields, 1);
    lemma_value(tag.attributes, fields, 2);
    lemma_value(tag.attributes, fields, 3);
    lemma_value(tag.attributes, fields, 4);
    law_values_wherever_they_stand(tag.attributes, fields, 0, text);
    assert(fields[0].required && fields[2].required);
}

/// A `<default>` needs nothing, and is made of what its pairs say; `upstream` may be there and
/// means nothing.
pub proof fn law_default_is_what_its_tag_says(tag: TagView, text: Seq<char>)
    requires
        named(tag.attributes, seq!["revision"@, "remote"@, "sync-j"@, "sync-c"@, "upstream"@]),
        forall|t: Seq<char>|
            tag.attributes.contains(#[trigger] pair("sync-c"@, t)) ==> bool_value(t) is Some,
        forall|t: Seq<char>|
            tag.attributes.contains(#[trigger] pair("sync-j"@, t)) ==> u32_value(t) is Some,
    ensures
        ({
            let read = read_element(Element::Default, tag);
            let default = default_of(read.values);
            &&& read.error is None
            &&& read.unknown.len() == 0
            &&& default.revision == Some(text) <==> tag.attributes.contains(pair("revision"@, text))
            &&& default.remote == Some(text) <==> tag.attributes.contains(pair("remote"@, text))
            &&& tag.attributes.contains(pair("sync-j"@, text)) ==> default.sync_j == u32_value(text)
            &&& default.sync_j is Some <==> has(tag, "sync-j"@)
            &&& tag.attributes.contains(pair("sync-c"@, text)) ==> default.sync_c == bool_value(text)
            &&& default.sync_c is Some <==> has(tag, "sync-c"@)
        }),
{
    let fields = element_fields(Element::Default);
    let names = seq!["revision"@, "remote"@, "sync-j"@, "sync-c"@, "upstream"@];
    law_fields_distinct(Element::Default);
    lemma_named_well_formed(tag.attributes, names, fields);
    let read = read_element(Element::Default, tag);
    lemma_value(tag.attributes, fields, 0);
    lemma_value(tag.attributes, fields, 1);
    lemma_value(tag.attributes, fields, 2);
    lemma_value(tag.attributes, fields, 3);
    law_values_wherever_they_stand(tag.attributes, fields, 0, text);
    if let Some(t) = read.values[2] {
        assert(tag.attributes.contains(pair("sync-j"@, t)));
    }
    if let Some(t) = read.values[3] {
        assert(tag.attributes.contains(pair("sync-c"@, t)));
    }
}

/// A `<superproject>` needs a name and a remote, and is made of them.
pub proof fn law_superproject_is_what_its_tag_says(tag: TagView, text: Seq<char>)
    requires
        named(tag.attributes, seq!["name"@, "remote"@]),
    ensures
        ({
            let read = read_element(Element::SuperProject, tag);
            let superproject = superproject_of(read.values);
            &&& read.error is None <==> has(tag, "name"@) && has(tag, "remote"@)
            &&& read.unknown.len() == 0
            &&& tag.attributes.contains(pair("name"@, text)) ==> superproject.name == text
            &&& tag.attributes.contains(pair("remote"@, text)) ==> superproject.remote == text
        }),
{
    let fields = element_fields(Element::SuperProject);
    law_fields_distinct(Element::SuperProject);
    lemma_named_well_formed(tag.attributes, seq!["name"@, "remote"@], fields);
    lemma_value(tag.attributes, fields, 0);
    lemma_value(tag.attributes, fields, 1);
    law_values_wherever_they_stand(tag.attributes, fields, 0, text);
    assert(fields[0].required && fields[1].required);
}

/// A `<repo-hooks>` needs nothing, and is made of what its pairs say.
pub proof fn law_repo_hooks_are_what_their_tag_says(tag: TagView, text: Seq<char>)
    requires
        named(tag.attributes, seq!["in-project"@, "enabled-list"@]),
    ensures
        ({
            let read = read_element(Element::RepoHooks, tag);
            let hooks = repo_hooks_of(read.values);
            &&& read.error is None
            &&& read.unknown.len() == 0
            &&& hooks.in_project == Some(text) <==> tag.attributes.contains(
                pair("in-project"@, text),
            )
            &&& hooks.enabled_list == Some(text) <==> tag.attributes.contains(
                pair("enabled-list"@, text),
            )
        }),
{
    let fields = element_fields(Element::RepoHooks);
    law_fields_distinct(Element::RepoHooks);
    lemma_named_well_formed(tag.attributes, seq!["in-project"@, "enabled-list"@], fields);
    lemma_value(tag.attributes, fields, 0);
    lemma_value(tag.attributes, fields, 1);
    law_values_wherever_they_stand(tag.attributes, fields, 0, text);
}

/// A `<copyfile>` and a `<linkfile>` need a source and a destination, and are made of them; each
/// stays what it is.
pub proof fn law_operation_is_what_its_tag_says(
    element: Element,
    tag: TagView,
    src: Seq<char>,
    dst: Seq<char>,
)
    requires
        element == Element::CopyFile || element == Element::LinkFile,
        named(tag.attributes, seq!["src"@, "dest"@]),
    ensures
        ({
            let read = read_element(element, tag);
            &&& read.error is None <==> has(tag, "src"@) && has(tag, "dest"@)
            &&& read.unknown.len() == 0
            &&& tag.attributes.contains(pair("src"@, src)) && tag.attributes.contains(
                pair("dest"@, dst),
            ) ==> operation_of(element, read.values) == (if element == Element::CopyFile {
                FileOperationView::CopyFile { src, dst }
            } else {
                FileOperationView::LinkFile { src, dst }
            })
        }),
{
    let fields = element_fields(element);
    law_fields_distinct(element);
    lemma_named_well_formed(tag.attributes, seq!["src"@, "dest"@], fields);
    lemma_value(tag.attributes, fields, 0);
    lemma_value(tag.attributes, fields, 1);
    law_values_wherever_they_stand(tag.attributes, fields, 0, src);
    law_values_wherever_they_stand(tag.attributes, fields, 1, dst);
    assert(fields[0].required && fields[1].required);
}

/// The elements that are one text each need it, and are made of it.
pub proof fn law_single_text_is_what_its_tag_says(
    element: Element,
    name: Seq<char>,
    tag: TagView,
    text: Seq<char>,
)
    requires
        element == Element::Include && name == "name"@ || element == Element::ManifestServer && name
            == "url"@ || element == Element::ContactInfo && name == "bugurl"@,
        named(tag.attributes, seq![name]),
    ensures
        ({
            let read = read_element(element, tag);
            &&& read.error is None <==> has(tag, name)
            &&& read.unknown.len() == 0
            &&& read.values.len() == 1
            &&& read.values[0] == Some(text) <==> tag.attributes.contains(pair(name, text))
        }),
{
    let fields = element_fields(element);
    law_fields_distinct(element);
    lemma_named_well_formed(tag.attributes, seq![name], fields);
    lemma_value(tag.attributes, fields, 0);
    law_values_wherever_they_stand(tag.attributes, fields, 0, text);
    assert(fields[0].required);
}

/// `upstream` may stand anywhere in a `<project>` or a `<default>`, and nothing of what is read
/// changes.
pub proof fn law_upstream_is_ignored(
    element: Element,
    name: Seq<u8>,
    a: Seq<TagAttributeView>,
    b: Seq<TagAttributeView>,
    text: Seq<char>,
)
    requires
        element == Element::Project || element == Element::Default,
    ensures
        read_element(
            element,
            (TagView { name, attributes: a + seq![pair("upstream"@, text)] + b }),
        ) == read_element(element, (TagView { name, attributes: a + b })),
{
    let fields = element_fields(element);
    law_fields_distinct(element);
    let i: int = if element == Element::Project {
        8
    } else {
        4
    };
    assert(fields[i].name == "upstream"@ && fields[i].kind is Ignored);
    law_ignored_attribute_changes_nothing(
        a,
        b,
        fields,
        no_values(fields.len()),
        Seq::empty(),
        i,
        text,
    );
}

/// The last value of a name counts in an `<annotation>`, wherever it stands, and a name does not
/// hide a value nor a value a name; any other attribute is refused by its name.
pub proof fn law_last_annotation_counts(
    a: Seq<TagAttributeView>,
    name: Option<Seq<char>>,
    value: Option<Seq<char>>,
    text: Seq<char>,
    key: Seq<u8>,
)
    requires
        read_annotation(a, None, None) is Ok,
        read_annotation(a, None, None)->Ok_0 == (name, value),
        key != text_bytes("name"@),
        key != text_bytes("value"@),
    ensures
        ({
            let named = read_annotation(a.push(pair("name"@, text)), None, None);
            let valued = read_annotation(a.push(pair("value"@, text)), None, None);
            let stray = read_annotation(
                a.push(TagAttributeView::Pair { key, text: Ok(text) }),
                None,
                None,
            );
            &&& named is Ok && named->Ok_0 == (Some(text), value)
            &&& valued is Ok && valued->Ok_0 == (name, Some(text))
            &&& stray is Err && stray->Err_0 == AttributeErrorView::Unknown(key)
        }),
{
    lemma_annotation_goes_on(a, None, None, pair("name"@, text));
    lemma_annotation_goes_on(a, None, None, pair("value"@, text));
    lemma_annotation_goes_on(a, None, None, TagAttributeView::Pair { key, text: Ok(text) });
    reveal_strlit("name");
    reveal_strlit("value");
    assert("name"@.len() != "value"@.len());
    lemma_bytes_tell("name"@, "value"@);
    reveal_with_fuel(read_annotation, 2);
}

/// An annotation without attributes has neither a name nor a value.
pub proof fn law_empty_annotation()
    ensures
        read_annotation(Seq::empty(), None, None) is Ok,
        read_annotation(Seq::empty(), None, None)->Ok_0 == (None::<Seq<char>>, None::<Seq<char>>),
{
}

/// Reading goes on with one more attribute.
proof fn lemma_annotation_goes_on(
    a: Seq<TagAttributeView>,
    name: Option<Seq<char>>,
    value: Option<Seq<char>>,
    last: TagAttributeView,
)
    requires
        read_annotation(a, name, value) is Ok,
    ensures
        read_annotation(a.push(last), name, value) == read_annotation(
            seq![last],
            read_annotation(a, name, value)->Ok_0.0,
            read_annotation(a, name, value)->Ok_0.1,
        ),
    decreases a.len(),
{
    if a.len() == 0 {
        assert(a.push(last) =~= seq![last]);
    } else {
        assert(a.push(last).drop_first() =~= a.drop_first().push(last));
        assert(a.push(last)[0] == a[0]);
        let text = a[0]->text->Ok_0;
        if a[0]->key == text_bytes("name"@) {
            lemma_annotation_goes_on(a.drop_first(), Some(text), value, last);
        } else {
            lemma_annotation_goes_on(a.drop_first(), name, Some(text), last);
        }
    }
}

} // verus!
