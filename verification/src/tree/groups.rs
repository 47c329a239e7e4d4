//! Which groups of projects a tree holds.
use vstd::prelude::*;

use crate::manifest::Project;
use crate::text::{
    begins_with, begins_with_char, concat2, join, join_with, law_split_of_join,
    law_split_without_separator, lemma_split_between, list_contains, skip_chars, split, split_on,
};

verus! {

/// A group that projects are taken from, or one whose projects are left out.
pub enum GroupFilter {
    Include(String),
    Exclude(String),
}

/// A group filter, as a value.
pub enum GroupFilterView {
    Include(Seq<char>),
    Exclude(Seq<char>),
}

impl View for GroupFilter {
    type V = GroupFilterView;

    open spec fn view(&self) -> GroupFilterView {
        match self {
            GroupFilter::Include(group) => GroupFilterView::Include(group@),
            GroupFilter::Exclude(group) => GroupFilterView::Exclude(group@),
        }
    }
}

impl DeepView for GroupFilter {
    type V = GroupFilterView;

    open spec fn deep_view(&self) -> GroupFilterView {
        self@
    }
}

/// A project of these groups passes the filters: there are none, or it is in an included group
/// and in no excluded one.
pub open spec fn passes(filters: Seq<GroupFilterView>, groups: Seq<Seq<char>>) -> bool {
    filters.len() == 0 || {
        &&& exists|i: int|
            0 <= i < filters.len() && (#[trigger] filters[i] matches GroupFilterView::Include(g)
                && groups.contains(g))
        &&& forall|i: int|
            0 <= i < filters.len() ==> (#[trigger] filters[i] matches GroupFilterView::Exclude(g)
                ==> !groups.contains(g))
    }
}

/// The groups of a project, where it names none: none.
pub open spec fn groups_or_none(groups: Option<Seq<Seq<char>>>) -> Seq<Seq<char>> {
    match groups {
        Some(list) => list,
        None => Seq::empty(),
    }
}

/// A filter as text: an excluded group has a `-` in front.
pub open spec fn filter_text(filter: GroupFilterView) -> Seq<char> {
    match filter {
        GroupFilterView::Include(group) => group,
        GroupFilterView::Exclude(group) => seq!['-'] + group,
    }
}

/// The filter that a text stands for, where it may name the empty group.
pub open spec fn read_filter(text: Seq<char>) -> GroupFilterView {
    if begins_with(text, '-') {
        GroupFilterView::Exclude(text.skip(1))
    } else {
        GroupFilterView::Include(text)
    }
}

/// The name of the group that a filter speaks of.
pub open spec fn filter_group(filter: GroupFilterView) -> Seq<char> {
    match filter {
        GroupFilterView::Include(group) => group,
        GroupFilterView::Exclude(group) => group,
    }
}

/// The filters as texts.
pub open spec fn filter_texts(filters: Seq<GroupFilterView>) -> Seq<Seq<char>> {
    filters.map_values(|f: GroupFilterView| filter_text(f))
}

/// The filters that a comma separated list stands for.
pub open spec fn read_filters(list: Seq<char>) -> Seq<GroupFilterView> {
    split_on(list, ',').map_values(|text: Seq<char>| read_filter(text))
}

/// A filter written as text reads back as itself, unless it includes a group whose name begins
/// with `-`.
pub proof fn law_filter_read_back(filter: GroupFilterView)
    requires
        filter matches GroupFilterView::Include(group) ==> !begins_with(group, '-'),
    ensures
        read_filter(filter_text(filter)) == filter,
{
    match filter {
        GroupFilterView::Include(_) => {},
        GroupFilterView::Exclude(group) => {
            assert((seq!['-'] + group).skip(1) =~= group);
        },
    }
}

/// Reading a text as a filter and writing it again gives the text.
pub proof fn law_filter_written_back(text: Seq<char>)
    ensures
        filter_text(read_filter(text)) == text,
{
    if begins_with(text, '-') {
        assert(seq!['-'] + text.skip(1) =~= text);
    }
}

impl GroupFilter {
    /// Whether a project passes the filters.
    pub fn filter_project(filters: &Vec<GroupFilter>, project: &Project) -> (r: bool)
        ensures
            r == passes(filters.deep_view(), groups_or_none(project@.groups)),
    {
        if filters.len() == 0 {
            return true;
        }
        let none: Vec<String> = Vec::new();
        let groups: &Vec<String> = match &project.groups {
            Some(groups) => groups,
            None => &none,
        };
        let ghost all = filters.deep_view();
        let ghost names = groups.deep_view();
        assert(names =~= groups_or_none(project@.groups));
        let mut included: bool = false;
        let mut excluded: bool = false;
        let mut i: usize = 0;
        while i < filters.len()
            invariant
                i <= filters.len(),
                all == filters.deep_view(),
                names == groups.deep_view(),
                included == exists|j: int|
                    0 <= j < i && (#[trigger] all[j] matches GroupFilterView::Include(g)
                        && names.contains(g)),
                excluded == exists|j: int|
                    0 <= j < i && (#[trigger] all[j] matches GroupFilterView::Exclude(g)
                        && names.contains(g)),
            decreases filters.len() - i,
        {
            assert(all[i as int] == filters@[i as int]@);
            match &filters[i] {
                GroupFilter::Include(group) => {
                    if list_contains(groups, group.as_str()) {
                        included = true;
                    }
                },
                GroupFilter::Exclude(group) => {
                    if list_contains(groups, group.as_str()) {
                        excluded = true;
                    }
                },
            }
            i += 1;
        }
        included && !excluded
    }

    /// The filter as text.
    pub fn to_text(&self) -> (r: String)
        ensures
            r@ == filter_text(self@),
    {
        match self {
            GroupFilter::Include(group) => group.clone(),
            GroupFilter::Exclude(group) => {
                proof {
                    reveal_strlit("-");
                    assert("-"@ =~= seq!['-']);
                }
                concat2("-", group.as_str())
            },
        }
    }

    /// The filter that a text stands for; there is none where it names the empty group.
    pub fn from_text(text: &str) -> (r: Option<GroupFilter>)
        ensures
            r.deep_view() == if filter_group(read_filter(text@)).len() == 0 {
                None
            } else {
                Some(read_filter(text@))
            },
    {
        let filter: GroupFilter = GroupFilter::from_group(text);
        let empty: bool = match &filter {
            GroupFilter::Include(group) => group.as_str().is_empty(),
            GroupFilter::Exclude(group) => group.as_str().is_empty(),
        };
        if empty {
            None
        } else {
            Some(filter)
        }
    }

    /// The filter that one entry of a comma separated list stands for.
    pub fn from_group(group: &str) -> (r: GroupFilter)
        ensures
            r@ == read_filter(group@),
    {
        if begins_with_char(group, '-') {
            GroupFilter::Exclude(skip_chars(group, 1))
        } else {
            GroupFilter::Include(group.to_owned())
        }
    }

    /// The filters that a comma separated list stands for; none where there is no list.
    pub fn from_list(list: Option<&str>) -> (r: Vec<GroupFilter>)
        ensures
            r.deep_view() == match list {
                Some(text) => read_filters(text@),
                None => Seq::empty(),
            },
    {
        let mut r: Vec<GroupFilter> = Vec::new();
        match list {
            None => {
                assert(r.deep_view() =~= Seq::empty());
            },
            Some(text) => {
                let pieces: Vec<String> = split(text, ',');
                let ghost all = pieces.deep_view();
                let mut i: usize = 0;
                assert(r.deep_view() =~= read_filters(text@).take(0));
                while i < pieces.len()
                    invariant
                        i <= pieces.len(),
                        all == pieces.deep_view(),
                        all == split_on(text@, ','),
                        r.deep_view() == read_filters(text@).take(i as int),
                    decreases pieces.len() - i,
                {
                    let ghost before = r.deep_view();
                    assert(all[i as int] == pieces@[i as int]@);
                    r.push(GroupFilter::from_group(pieces[i].as_str()));
                    assert(r.deep_view() =~= before.push(read_filter(all[i as int])));
                    assert(r.deep_view() =~= read_filters(text@).take(i + 1));
                    i += 1;
                }
                assert(r.deep_view() =~= read_filters(text@));
            },
        }
        r
    }

    /// The filters as a comma separated list.
    pub fn list_text(filters: &Vec<GroupFilter>) -> (r: String)
        ensures
            r@ == join_with(filter_texts(filters.deep_view()), ","@),
    {
        let mut texts: Vec<String> = Vec::new();
        let ghost all = filters.deep_view();
        let mut i: usize = 0;
        assert(texts.deep_view() =~= filter_texts(all).take(0));
        while i < filters.len()
            invariant
                i <= filters.len(),
                all == filters.deep_view(),
                texts.deep_view() == filter_texts(all).take(i as int),
            decreases filters.len() - i,
        {
            let ghost before = texts.deep_view();
            assert(all[i as int] == filters@[i as int]@);
            texts.push(filters[i].to_text());
            assert(texts.deep_view() =~= before.push(filter_text(all[i as int])));
            assert(texts.deep_view() =~= filter_texts(all).take(i + 1));
            i += 1;
        }
        assert(texts.deep_view() =~= filter_texts(all));
        join(&texts, ",")
    }
}

/// Without filters every project passes. Otherwise a project passes exactly where one of its groups
/// is included, by whichever filter, and none of them is excluded, by whichever filter.
pub proof fn law_groups_decide(
    filters: Seq<GroupFilterView>,
    groups: Seq<Seq<char>>,
    i: int,
    k: int,
)
    ensures
        passes(Seq::empty(), groups),
        0 <= i < filters.len() && 0 <= k < groups.len() && filters[i] == GroupFilterView::Exclude(
            groups[k],
        ) ==> !passes(filters, groups),
        0 <= i < filters.len() && 0 <= k < groups.len() && filters[i] == GroupFilterView::Include(
            groups[k],
        ) && (forall|j: int, l: int|
            0 <= j < filters.len() && 0 <= l < groups.len() ==> #[trigger] filters[j]
                != GroupFilterView::Exclude(#[trigger] groups[l])) ==> passes(filters, groups),
        filters.len() > 0 && (forall|j: int, l: int|
            0 <= j < filters.len() && 0 <= l < groups.len() ==> #[trigger] filters[j]
                != GroupFilterView::Include(#[trigger] groups[l])) ==> !passes(filters, groups),
{
    if 0 <= i < filters.len() && 0 <= k < groups.len() {
        assert(groups.contains(groups[k]));
        if forall|j: int, l: int|
            0 <= j < filters.len() && 0 <= l < groups.len() ==> #[trigger] filters[j]
                != GroupFilterView::Exclude(#[trigger] groups[l]) {
            assert forall|j: int| 0 <= j < filters.len() implies (
            #[trigger] filters[j] matches GroupFilterView::Exclude(g) ==> !groups.contains(g)) by {
                if let GroupFilterView::Exclude(g) = filters[j] {
                    if groups.contains(g) {
                        let l = choose|l: int| 0 <= l < groups.len() && groups[l] == g;
                        assert(filters[j] != GroupFilterView::Exclude(groups[l]));
                    }
                }
            }
        }
    }
    if passes(filters, groups) && filters.len() > 0 {
        let j = choose|j: int|
            0 <= j < filters.len() && (#[trigger] filters[j] matches GroupFilterView::Include(g)
                && groups.contains(g));
        let g = filters[j]->Include_0;
        let l = choose|l: int| 0 <= l < groups.len() && groups[l] == g;
        assert(filters[j] == GroupFilterView::Include(groups[l]));
    }
}

/// The order of filters makes no difference, and neither does that of groups.
pub proof fn law_order_of_filters(
    a: Seq<GroupFilterView>,
    b: Seq<GroupFilterView>,
    x: Seq<Seq<char>>,
    y: Seq<Seq<char>>,
)
    ensures
        passes(a + b, x + y) == passes(b + a, y + x),
{
    lemma_order_of_filters(a, b, x, y);
    lemma_order_of_filters(b, a, y, x);
}

proof fn lemma_order_of_filters(
    a: Seq<GroupFilterView>,
    b: Seq<GroupFilterView>,
    x: Seq<Seq<char>>,
    y: Seq<Seq<char>>,
)
    ensures
        passes(a + b, x + y) ==> passes(b + a, y + x),
{
    let ab = a + b;
    let ba = b + a;
    assert forall|g: Seq<char>| (x + y).contains(g) == #[trigger] (y + x).contains(g) by {
        lemma_contains_either(x, y, g);
        lemma_contains_either(y, x, g);
    }
    if passes(ab, x + y) && ab.len() > 0 {
        let i = choose|i: int|
            0 <= i < ab.len() && (#[trigger] ab[i] matches GroupFilterView::Include(g) && (x
                + y).contains(g));
        let at = if i < a.len() {
            b.len() + i
        } else {
            i - a.len()
        };
        assert(ba[at] == ab[i]);
        assert((y + x).contains(ab[i]->Include_0));
        assert forall|j: int| 0 <= j < ba.len() implies (
        #[trigger] ba[j] matches GroupFilterView::Exclude(g) ==> !(y + x).contains(g)) by {
            let from = if j < b.len() {
                a.len() + j
            } else {
                j - b.len()
            };
            assert(ab[from] == ba[j]);
        }
    }
}

proof fn lemma_contains_either(x: Seq<Seq<char>>, y: Seq<Seq<char>>, g: Seq<char>)
    ensures
        (x + y).contains(g) <==> x.contains(g) || y.contains(g),
{
    if x.contains(g) {
        let i = choose|i: int| 0 <= i < x.len() && x[i] == g;
        assert((x + y)[i] == g);
    }
    if y.contains(g) {
        let i = choose|i: int| 0 <= i < y.len() && y[i] == g;
        assert((x + y)[x.len() + i] == g);
    }
    if (x + y).contains(g) {
        let i = choose|i: int| 0 <= i < (x + y).len() && (x + y)[i] == g;
        if i < x.len() {
            assert(x[i] == g);
        } else {
            assert(y[i - x.len()] == g);
        }
    }
}

/// A text with a `-` in front excludes the group behind it, and any other includes the group of its
/// name; the texts of a list stand between its commas.
pub proof fn law_filters_of_list(list: Seq<char>, group: Seq<char>)
    requires
        !group.contains(','),
    ensures
        read_filters(seq!['-'] + group) == seq![GroupFilterView::Exclude(group)],
        !begins_with(group, '-') ==> read_filters(group) == seq![GroupFilterView::Include(group)],
        read_filters(list + seq![','] + group) == read_filters(list) + read_filters(group),
        read_filters(list + seq![','] + (seq!['-'] + group)) == read_filters(list).push(
            GroupFilterView::Exclude(group),
        ),
{
    let excluded = seq!['-'] + group;
    assert forall|i: int| 0 <= i < excluded.len() implies excluded[i] != ',' by {
        if i > 0 {
            assert(group.contains(group[i - 1]));
        }
    }
    law_split_without_separator(excluded, ',');
    law_split_without_separator(group, ',');
    assert(excluded[0] == '-');
    assert(excluded.skip(1) =~= group);
    assert(read_filters(excluded) =~= seq![GroupFilterView::Exclude(group)]);
    assert(!begins_with(group, '-') ==> read_filters(group) =~= seq![
        GroupFilterView::Include(group),
    ]);
    lemma_split_between(list, group, ',');
    lemma_split_between(list, excluded, ',');
    assert(read_filters(list + seq![','] + group) =~= read_filters(list) + read_filters(group));
    assert(read_filters(list + seq![','] + excluded) =~= read_filters(list).push(
        GroupFilterView::Exclude(group),
    ));
}

/// A list of filters reads back from its text, where no name holds a comma and no included name
/// begins with `-`.
pub proof fn law_filter_list_read_back(filters: Seq<GroupFilterView>)
    requires
        filters.len() > 0,
        forall|i: int|
            0 <= i < filters.len() ==> match #[trigger] filters[i] {
                GroupFilterView::Include(g) => !g.contains(',') && !begins_with(g, '-'),
                GroupFilterView::Exclude(g) => !g.contains(','),
            },
    ensures
        read_filters(join_with(filter_texts(filters), seq![','])) == filters,
{
    let texts = filter_texts(filters);
    assert forall|i: int| 0 <= i < texts.len() implies !(#[trigger] texts[i]).contains(',') by {
        let text = texts[i];
        assert(text == filter_text(filters[i]));
        if text.contains(',') {
            let k = choose|k: int| 0 <= k < text.len() && text[k] == ',';
            match filters[i] {
                GroupFilterView::Include(g) => {
                    assert(g.contains(g[k]));
                },
                GroupFilterView::Exclude(g) => {
                    assert(g.contains(g[k - 1]));
                },
            }
        }
    }
    law_split_of_join(texts, ',');
    let read = read_filters(join_with(texts, seq![',']));
    assert forall|i: int| 0 <= i < filters.len() implies read[i] == filters[i] by {
        law_filter_read_back(filters[i]);
        assert(texts[i] == filter_text(filters[i]));
    }
    assert(read =~= filters);
}

/// A text is a filter exactly where it names a group that is not empty; a `-` in front makes it
/// exclude the group.
pub proof fn law_filter_needs_group(text: &str, r: Option<GroupFilter>)
    requires
        call_ensures(GroupFilter::from_text, (text,), r),
    ensures
        r is None <==> text@.len() == 0 || text@ == seq!['-'],
        r matches Some(filter) ==> (filter@ is Exclude <==> text@[0] == '-'),
        r matches Some(filter) ==> filter_text(filter@) == text@,
{
    law_filter_written_back(text@);
    if text@.len() > 0 && text@[0] == '-' {
        if text@.len() == 1 {
            assert(text@ =~= seq!['-']);
        }
        assert(text@.skip(1).len() == text@.len() - 1);
    }
    assert(seq!['-'][0] == '-');
}

/// A list of filters is read as its texts are, in order, and without a list there are none.
pub proof fn law_filters_read_from_list(list: &str, some: Vec<GroupFilter>, none: Vec<GroupFilter>)
    requires
        call_ensures(GroupFilter::from_list, (Some(list),), some),
        call_ensures(GroupFilter::from_list, (None::<&str>,), none),
    ensures
        none@.len() == 0,
        some@.len() == split_on(list@, ',').len(),
        forall|i: int|
            0 <= i < some@.len() ==> filter_text((#[trigger] some@[i])@) == split_on(list@, ',')[i],
{
    let read = some.deep_view();
    assert(none.deep_view().len() == none@.len());
    assert(read.len() == some@.len());
    assert forall|i: int| 0 <= i < some@.len() implies filter_text((#[trigger] some@[i])@)
        == split_on(list@, ',')[i] by {
        assert(read[i] == some@[i]@);
        law_filter_written_back(split_on(list@, ',')[i]);
    }
}

} // verus!
