//! Making a directory hold what another holds.
use vstd::prelude::*;

use crate::depot::{Depot, Replacement};
use crate::path::{parent_of, parent_path};
use crate::text::same_text;

verus! {

/// An entry of a directory, with the time of its last modification.
pub struct Entry {
    pub name: String,
    pub is_dir: bool,
    pub seconds: i64,
    pub nanoseconds: u32,
}

/// An entry of a directory, as a value.
pub struct EntryView {
    pub name: Seq<char>,
    pub is_dir: bool,
    pub seconds: i64,
    pub nanoseconds: u32,
}

impl View for Entry {
    type V = EntryView;

    open spec fn view(&self) -> EntryView {
        EntryView {
            name: self.name@,
            is_dir: self.is_dir,
            seconds: self.seconds,
            nanoseconds: self.nanoseconds,
        }
    }
}

impl DeepView for Entry {
    type V = EntryView;

    open spec fn deep_view(&self) -> EntryView {
        self@
    }
}

/// A change to one entry of a directory.
pub enum Action {
    /// The file becomes a copy of the one of that name in the source, with its time.
    Copy { name: String, seconds: i64, nanoseconds: u32 },
    /// The directory is removed with all that it holds.
    RemoveDir { name: String },
    /// The file is removed.
    RemoveFile { name: String },
}

/// A change to one entry of a directory, as a value.
pub enum ActionView {
    Copy { name: Seq<char>, seconds: i64, nanoseconds: u32 },
    RemoveDir { name: Seq<char> },
    RemoveFile { name: Seq<char> },
}

impl View for Action {
    type V = ActionView;

    open spec fn view(&self) -> ActionView {
        match self {
            Action::Copy { name, seconds, nanoseconds } => ActionView::Copy {
                name: name@,
                seconds: *seconds,
                nanoseconds: *nanoseconds,
            },
            Action::RemoveDir { name } => ActionView::RemoveDir { name: name@ },
            Action::RemoveFile { name } => ActionView::RemoveFile { name: name@ },
        }
    }
}

impl DeepView for Action {
    type V = ActionView;

    open spec fn deep_view(&self) -> ActionView {
        self@
    }
}

/// The first entry of the name.
pub open spec fn entry_named(entries: Seq<EntryView>, name: Seq<char>) -> Option<EntryView> {
    crate::lists::find_first(entries, |e: EntryView| e.name == name)
}

/// The file of the name among the entries, if it is one.
pub open spec fn file_named(entries: Seq<EntryView>, name: Seq<char>) -> Option<EntryView> {
    crate::lists::find_first(entries, |e: EntryView| e.name == name && !e.is_dir)
}

/// The entries hold a directory of the name.
pub open spec fn has_dir(entries: Seq<EntryView>, name: Seq<char>) -> bool {
    exists|i: int| 0 <= i < entries.len() && #[trigger] entries[i].name == name && entries[i].is_dir
}

/// The copy of a source entry.
pub open spec fn copy_of(e: EntryView) -> ActionView {
    ActionView::Copy { name: e.name, seconds: e.seconds, nanoseconds: e.nanoseconds }
}

/// What happens to an entry that is there already: a file of the source is copied where the times
/// differ; what the source does not hold is removed.
pub open spec fn present_action(src: Seq<EntryView>, e: EntryView) -> Option<ActionView> {
    match file_named(src, e.name) {
        Some(source) => if source.seconds == e.seconds && source.nanoseconds == e.nanoseconds {
            None
        } else {
            Some(copy_of(source))
        },
        None => if e.is_dir {
            if has_dir(src, e.name) {
                None
            } else {
                Some(ActionView::RemoveDir { name: e.name })
            }
        } else {
            Some(ActionView::RemoveFile { name: e.name })
        },
    }
}

/// A list with one more element, where there is one.
pub open spec fn with_some(list: Seq<ActionView>, action: Option<ActionView>) -> Seq<ActionView> {
    match action {
        Some(action) => list.push(action),
        None => list,
    }
}

/// What happens to the entries that are there already.
pub open spec fn present_actions(src: Seq<EntryView>, dst: Seq<EntryView>) -> Seq<ActionView>
    decreases dst.len(),
{
    if dst.len() == 0 {
        Seq::empty()
    } else {
        with_some(present_actions(src, dst.drop_last()), present_action(src, dst.last()))
    }
}

/// The copy of a source file that is not there yet.
pub open spec fn absent_action(dst: Seq<EntryView>, e: EntryView) -> Option<ActionView> {
    if e.is_dir || entry_named(dst, e.name) is Some {
        None
    } else {
        Some(copy_of(e))
    }
}

/// The copies of source files that are not there yet.
pub open spec fn absent_actions(src: Seq<EntryView>, dst: Seq<EntryView>) -> Seq<ActionView>
    decreases src.len(),
{
    if src.len() == 0 {
        Seq::empty()
    } else {
        with_some(absent_actions(src.drop_last(), dst), absent_action(dst, src.last()))
    }
}

/// All that happens to make `dst` hold what `src` holds.
pub open spec fn replace_actions(src: Seq<EntryView>, dst: Seq<EntryView>) -> Seq<ActionView> {
    present_actions(src, dst) + absent_actions(src, dst)
}

/// The names of the directories among the entries, in order.
pub open spec fn directories(entries: Seq<EntryView>) -> Seq<Seq<char>>
    decreases entries.len(),
{
    if entries.len() == 0 {
        Seq::empty()
    } else if entries.last().is_dir {
        directories(entries.drop_last()).push(entries.last().name)
    } else {
        directories(entries.drop_last())
    }
}

/// What a name stands for in a directory.
pub enum Node {
    File { seconds: i64, nanoseconds: u32 },
    Directory,
}

/// What an entry stands for.
pub open spec fn node_of(e: EntryView) -> Node {
    if e.is_dir {
        Node::Directory
    } else {
        Node::File { seconds: e.seconds, nanoseconds: e.nanoseconds }
    }
}

/// The directory that the entries are of.
pub open spec fn directory_of(entries: Seq<EntryView>) -> Map<Seq<char>, Node>
    decreases entries.len(),
{
    if entries.len() == 0 {
        Map::empty()
    } else {
        directory_of(entries.drop_last()).insert(entries.last().name, node_of(entries.last()))
    }
}

/// A directory after a change.
pub open spec fn after_action(directory: Map<Seq<char>, Node>, action: ActionView) -> Map<
    Seq<char>,
    Node,
> {
    match action {
        ActionView::Copy { name, seconds, nanoseconds } => directory.insert(
            name,
            Node::File { seconds, nanoseconds },
        ),
        ActionView::RemoveDir { name } => directory.remove(name),
        ActionView::RemoveFile { name } => directory.remove(name),
    }
}

/// A directory after changes, one after another.
pub open spec fn after_actions(
    directory: Map<Seq<char>, Node>,
    actions: Seq<ActionView>,
) -> Map<Seq<char>, Node>
    decreases actions.len(),
{
    if actions.len() == 0 {
        directory
    } else {
        after_action(after_actions(directory, actions.drop_last()), actions.last())
    }
}

/// No name occurs twice.
pub open spec fn distinct(entries: Seq<EntryView>) -> bool {
    forall|i: int, j: int|
        0 <= i < j < entries.len() ==> #[trigger] entries[i].name != #[trigger] entries[j].name
}

/// No name is a directory in one list and a file in the other.
pub open spec fn same_kinds(src: Seq<EntryView>, dst: Seq<EntryView>) -> bool {
    forall|i: int, j: int|
        0 <= i < src.len() && 0 <= j < dst.len() && #[trigger] src[i].name == #[trigger] dst[j].name
            ==> src[i].is_dir == dst[j].is_dir
}

/// Every directory of the source is there.
pub open spec fn has_directories(src: Seq<EntryView>, dst: Seq<EntryView>) -> bool {
    forall|i: int| 0 <= i < src.len() && #[trigger] src[i].is_dir ==> has_dir(dst, src[i].name)
}

proof fn lemma_directory_of(entries: Seq<EntryView>, name: Seq<char>)
    requires
        distinct(entries),
    ensures
        forall|i: int|
            0 <= i < entries.len() && #[trigger] entries[i].name == name ==> directory_of(
                entries,
            ).dom().contains(name) && directory_of(entries)[name] == node_of(entries[i]),
        (forall|i: int| 0 <= i < entries.len() ==> #[trigger] entries[i].name != name)
            ==> !directory_of(entries).dom().contains(name),
    decreases entries.len(),
{
    if entries.len() > 0 {
        let front = entries.drop_last();
        lemma_directory_of(front, name);
        assert forall|i: int|
            0 <= i < entries.len() && #[trigger] entries[i].name == name implies directory_of(
            entries,
        ).dom().contains(name) && directory_of(entries)[name] == node_of(entries[i]) by {
            if i < entries.len() - 1 {
                assert(front[i] == entries[i]);
                assert(entries[i].name != entries[entries.len() - 1].name);
            }
        }
        if forall|i: int| 0 <= i < entries.len() ==> #[trigger] entries[i].name != name {
            assert forall|i: int| 0 <= i < front.len() implies #[trigger] front[i].name != name by {
                assert(front[i] == entries[i]);
            }
            assert(entries[entries.len() - 1].name != name);
        }
    }
}

/// The name that an action changes.
pub open spec fn action_name(action: ActionView) -> Seq<char> {
    match action {
        ActionView::Copy { name, .. } => name,
        ActionView::RemoveDir { name } => name,
        ActionView::RemoveFile { name } => name,
    }
}

proof fn lemma_after_append(
    directory: Map<Seq<char>, Node>,
    first: Seq<ActionView>,
    second: Seq<ActionView>,
)
    ensures
        after_actions(directory, first + second) == after_actions(
            after_actions(directory, first),
            second,
        ),
    decreases second.len(),
{
    if second.len() == 0 {
        assert(first + second =~= first);
    } else {
        assert((first + second).drop_last() =~= first + second.drop_last());
        lemma_after_append(directory, first, second.drop_last());
    }
}

/// What the name stands for after the entries that are there already have been dealt with.
proof fn lemma_present(
    src: Seq<EntryView>,
    dst: Seq<EntryView>,
    start: Map<Seq<char>, Node>,
    name: Seq<char>,
)
    requires
        distinct(dst),
        forall|j: int|
            0 <= j < dst.len() ==> start.dom().contains(#[trigger] dst[j].name)
                && start[dst[j].name] == node_of(dst[j]),
    ensures
        ({
            let after = after_actions(start, present_actions(src, dst));
            &&& (forall|j: int| 0 <= j < dst.len() ==> #[trigger] dst[j].name != name) ==> (
            after.dom().contains(name) == start.dom().contains(name) && (start.dom().contains(name)
                ==> after[name] == start[name]))
            &&& forall|j: int|
                0 <= j < dst.len() && #[trigger] dst[j].name == name ==> {
                    match present_action(src, dst[j]) {
                        Some(ActionView::Copy { seconds, nanoseconds, .. }) => after.dom().contains(
                            name,
                        ) && after[name] == (Node::File { seconds, nanoseconds }),
                        Some(_) => !after.dom().contains(name),
                        None => after.dom().contains(name) && after[name] == node_of(dst[j]),
                    }
                }
        }),
    decreases dst.len(),
{
    if dst.len() > 0 {
        let front = dst.drop_last();
        let last = dst.last();
        assert forall|j: int| 0 <= j < front.len() implies start.dom().contains(
            #[trigger] front[j].name,
        ) && start[front[j].name] == node_of(front[j]) by {
            assert(front[j] == dst[j]);
        }
        assert forall|i: int, j: int| 0 <= i < j < front.len() implies #[trigger] front[i].name
            != #[trigger] front[j].name by {
            assert(front[i] == dst[i] && front[j] == dst[j]);
        }
        lemma_present(src, front, start, name);
        lemma_find_named(src, last.name);
        let before = present_actions(src, front);
        match present_action(src, last) {
            Some(action) => {
                assert(before.push(action).drop_last() =~= before);
                assert(action_name(action) == last.name);
            },
            None => {},
        }
        assert(start.dom().contains(dst[dst.len() - 1].name));
        assert forall|j: int| 0 <= j < front.len() implies #[trigger] front[j].name
            != last.name by {
            assert(front[j] == dst[j]);
            assert(dst[j].name != dst[dst.len() - 1].name);
        }
        let after = after_actions(start, present_actions(src, dst));
        assert forall|j: int| 0 <= j < dst.len() && #[trigger] dst[j].name == name implies {
            match present_action(src, dst[j]) {
                Some(ActionView::Copy { seconds, nanoseconds, .. }) => after.dom().contains(name)
                    && after[name] == (Node::File { seconds, nanoseconds }),
                Some(_) => !after.dom().contains(name),
                None => after.dom().contains(name) && after[name] == node_of(dst[j]),
            }
        } by {
            if j < dst.len() - 1 {
                assert(front[j] == dst[j]);
                assert(name != last.name);
            } else {
                assert(forall|k: int| 0 <= k < front.len() ==> #[trigger] front[k].name != name);
            }
        }
        if forall|j: int| 0 <= j < dst.len() ==> #[trigger] dst[j].name != name {
            assert(dst[dst.len() - 1].name != name);
            assert forall|j: int| 0 <= j < front.len() implies #[trigger] front[j].name != name by {
                assert(front[j] == dst[j]);
            }
        }
    }
}

/// A file that is found has the name that was looked for.
pub proof fn lemma_find_named(entries: Seq<EntryView>, name: Seq<char>)
    ensures
        match file_named(entries, name) {
            Some(e) => e.name == name && !e.is_dir && entries.contains(e),
            None => forall|i: int|
                0 <= i < entries.len() && #[trigger] entries[i].name == name ==> entries[i].is_dir,
        },
        match entry_named(entries, name) {
            Some(e) => e.name == name && entries.contains(e),
            None => forall|i: int| 0 <= i < entries.len() ==> #[trigger] entries[i].name != name,
        },
{
    let files = |e: EntryView| e.name == name && !e.is_dir;
    let all = |e: EntryView| e.name == name;
    crate::lists::law_find_first(entries, files);
    crate::lists::law_find_first(entries, all);
    if file_named(entries, name) is None {
        assert forall|i: int|
            0 <= i < entries.len() && #[trigger] entries[i].name == name implies entries[i].is_dir by {
            assert(!files(entries[i]));
        }
    }
    if entry_named(entries, name) is None {
        assert forall|i: int| 0 <= i < entries.len() implies #[trigger] entries[i].name != name by {
            assert(!all(entries[i]));
        }
    }
}

/// What the name stands for after the absent files have been copied.
proof fn lemma_absent(
    src: Seq<EntryView>,
    dst: Seq<EntryView>,
    start: Map<Seq<char>, Node>,
    name: Seq<char>,
)
    requires
        distinct(src),
    ensures
        ({
            let after = after_actions(start, absent_actions(src, dst));
            &&& (forall|i: int|
                0 <= i < src.len() && #[trigger] src[i].name == name ==> absent_action(
                    dst,
                    src[i],
                ) is None) ==> (after.dom().contains(name) == start.dom().contains(name) && (
            start.dom().contains(name) ==> after[name] == start[name]))
            &&& forall|i: int|
                0 <= i < src.len() && #[trigger] src[i].name == name && absent_action(
                    dst,
                    src[i],
                ) is Some ==> after.dom().contains(name) && after[name] == node_of(src[i])
        }),
    decreases src.len(),
{
    if src.len() > 0 {
        let front = src.drop_last();
        let last = src.last();
        assert forall|i: int, j: int| 0 <= i < j < front.len() implies #[trigger] front[i].name
            != #[trigger] front[j].name by {
            assert(front[i] == src[i] && front[j] == src[j]);
        }
        lemma_absent(front, dst, start, name);
        let before = absent_actions(front, dst);
        match absent_action(dst, last) {
            Some(action) => {
                assert(before.push(action).drop_last() =~= before);
            },
            None => {},
        }
        let after = after_actions(start, absent_actions(src, dst));
        assert forall|i: int|
            0 <= i < src.len() && #[trigger] src[i].name == name && absent_action(
                dst,
                src[i],
            ) is Some implies after.dom().contains(name) && after[name] == node_of(src[i]) by {
            if i < src.len() - 1 {
                assert(front[i] == src[i]);
                assert(src[i].name != src[src.len() - 1].name);
            }
        }
        if forall|i: int|
            0 <= i < src.len() && #[trigger] src[i].name == name ==> absent_action(
                dst,
                src[i],
            ) is None {
            assert forall|i: int| 0 <= i < front.len() && #[trigger] front[i].name == name implies
            absent_action(dst, front[i]) is None by {
                assert(front[i] == src[i]);
            }
            if last.name == name {
                assert(src[src.len() - 1].name == name);
            }
        }
    }
}

/// Where no name is a file in one directory and a directory in the other, and the directories of
/// the source have been made, the destination holds afterwards what the source holds: the same
/// names, the same kinds, and the same times of files.
pub proof fn law_replaced_equals_source(src: Seq<EntryView>, dst: Seq<EntryView>)
    requires
        distinct(src),
        distinct(dst),
        same_kinds(src, dst),
        has_directories(src, dst),
    ensures
        after_actions(directory_of(dst), replace_actions(src, dst)) == directory_of(src),
{
    let start = directory_of(dst);
    let middle = after_actions(start, present_actions(src, dst));
    let result = after_actions(start, replace_actions(src, dst));
    lemma_after_append(start, present_actions(src, dst), absent_actions(src, dst));
    assert forall|j: int| 0 <= j < dst.len() implies start.dom().contains(#[trigger] dst[j].name)
        && start[dst[j].name] == node_of(dst[j]) by {
        lemma_directory_of(dst, dst[j].name);
    }
    let target = directory_of(src);
    assert forall|name: Seq<char>|
        #![trigger result.dom().contains(name)]
        #![trigger target.dom().contains(name)]
        result.dom().contains(name) == target.dom().contains(name) && (target.dom().contains(name)
            ==> result[name] == target[name]) by {
        lemma_directory_of(src, name);
        lemma_directory_of(dst, name);
        lemma_present(src, dst, start, name);
        lemma_absent(src, dst, middle, name);
        lemma_find_named(src, name);
        lemma_find_named(dst, name);
        if exists|j: int| 0 <= j < dst.len() && #[trigger] dst[j].name == name {
            let j = choose|j: int| 0 <= j < dst.len() && #[trigger] dst[j].name == name;
            assert(entry_named(dst, name) is Some);
            assert forall|i: int| 0 <= i < src.len() && #[trigger] src[i].name == name implies
            absent_action(dst, src[i]) is None by {}
            if exists|i: int| 0 <= i < src.len() && #[trigger] src[i].name == name {
                let i = choose|i: int| 0 <= i < src.len() && #[trigger] src[i].name == name;
                assert(src[i].is_dir == dst[j].is_dir);
                if src[i].is_dir {
                    assert(file_named(src, name) is None) by {
                        if file_named(src, name) is Some {
                            let e = file_named(src, name)->0;
                            let k = choose|k: int| 0 <= k < src.len() && src[k] == e;
                            assert(src[k].name == name);
                            assert(k == i);
                        }
                    }
                    assert(has_dir(src, name));
                } else {
                    assert(file_named(src, name) is Some);
                    let e = file_named(src, name)->0;
                    let k = choose|k: int| 0 <= k < src.len() && src[k] == e;
                    assert(src[k].name == name);
                    assert(k == i);
                }
            } else {
                assert(file_named(src, name) is None) by {
                    if file_named(src, name) is Some {
                        let e = file_named(src, name)->0;
                        let k = choose|k: int| 0 <= k < src.len() && src[k] == e;
                        assert(src[k].name == name);
                    }
                }
                assert(!has_dir(src, name));
                assert(!target.dom().contains(name));
            }
        } else {
            assert(entry_named(dst, name) is None) by {
                if entry_named(dst, name) is Some {
                    let e = entry_named(dst, name)->0;
                    let k = choose|k: int| 0 <= k < dst.len() && dst[k] == e;
                    assert(dst[k].name == name);
                }
            }
            assert(!start.dom().contains(name));
            if exists|i: int| 0 <= i < src.len() && #[trigger] src[i].name == name {
                let i = choose|i: int| 0 <= i < src.len() && #[trigger] src[i].name == name;
                assert(!src[i].is_dir) by {
                    if src[i].is_dir {
                        assert(has_dir(dst, name));
                    }
                }
                assert(absent_action(dst, src[i]) is Some);
            } else {
                assert(!target.dom().contains(name));
            }
        }
    }
    assert(result =~= target);
}

/// The file of the name among the entries, if it is one.
fn find_file<'a>(entries: &'a Vec<Entry>, name: &str) -> (r: Option<&'a Entry>)
    ensures
        match r {
            Some(e) => file_named(entries.deep_view(), name@) == Some(e@),
            None => file_named(entries.deep_view(), name@) is None,
        },
{
    let ghost all = entries.deep_view();
    let ghost holds = |e: EntryView| e.name == name@ && !e.is_dir;
    let mut i: usize = 0;
    while i < entries.len()
        invariant
            i <= entries.len(),
            all == entries.deep_view(),
            holds == (|e: EntryView| e.name == name@ && !e.is_dir),
            forall|j: int| 0 <= j < i ==> !holds(#[trigger] all[j]),
        decreases entries.len() - i,
    {
        assert(all[i as int] == entries@[i as int]@);
        proof {
            crate::lists::lemma_find_from(all, holds, i as int);
        }
        if !entries[i].is_dir && same_text(entries[i].name.as_str(), name) {
            return Some(&entries[i]);
        }
        i += 1;
    }
    proof {
        crate::lists::lemma_find_from(all, holds, i as int);
    }
    None
}

/// Whether the entries hold a directory of the name, and whether they hold the name at all.
fn find_name(entries: &Vec<Entry>, name: &str) -> (r: (bool, bool))
    ensures
        r.0 == has_dir(entries.deep_view(), name@),
        r.1 == entry_named(entries.deep_view(), name@) is Some,
{
    let ghost all = entries.deep_view();
    proof {
        lemma_find_named(all, name@);
    }
    let mut dir: bool = false;
    let mut any: bool = false;
    let mut i: usize = 0;
    while i < entries.len()
        invariant
            i <= entries.len(),
            all == entries.deep_view(),
            dir == exists|j: int| 0 <= j < i && #[trigger] all[j].name == name@ && all[j].is_dir,
            any == exists|j: int| 0 <= j < i && #[trigger] all[j].name == name@,
        decreases entries.len() - i,
    {
        assert(all[i as int] == entries@[i as int]@);
        assert(all[i as int].name == entries@[i as int].name@);
        if same_text(entries[i].name.as_str(), name) {
            any = true;
            if entries[i].is_dir {
                dir = true;
            }
        }
        i += 1;
    }
    proof {
        if entry_named(all, name@) is Some {
            let e = entry_named(all, name@)->0;
            let k = choose|k: int| 0 <= k < all.len() && all[k] == e;
            assert(all[k].name == name@);
        }
    }
    (dir, any)
}

/// What has to be there before a directory can be replaced.
pub enum ReplaceStart {
    /// The source does not exist, so nothing is replaced.
    NoSource,
    /// The destination has no parent.
    NoParent,
    /// This directory has to be made first.
    Parent(String),
}

impl Depot {
    /// What has to be there before a directory can be replaced.
    pub fn replace_start(replacement: &Replacement, src_exists: bool) -> (r: ReplaceStart)
        ensures
            match r {
                ReplaceStart::NoSource => !src_exists,
                ReplaceStart::NoParent => src_exists && parent_of(replacement.dst@) is None,
                ReplaceStart::Parent(parent) => src_exists && parent_of(replacement.dst@) == Some(
                    parent@,
                ),
            },
    {
        if !src_exists {
            return ReplaceStart::NoSource;
        }
        match parent_path(replacement.dst.as_str()) {
            Some(parent) => ReplaceStart::Parent(parent),
            None => ReplaceStart::NoParent,
        }
    }

    /// The directories that have to be made in the destination, and replaced in turn.
    pub fn replace_directories(src: &Vec<Entry>) -> (r: Vec<String>)
        ensures
            r.deep_view() == directories(src.deep_view()),
    {
        let ghost all = src.deep_view();
        let mut r: Vec<String> = Vec::new();
        let mut i: usize = 0;
        assert(r.deep_view() =~= directories(all.take(0)));
        while i < src.len()
            invariant
                i <= src.len(),
                all == src.deep_view(),
                r.deep_view() == directories(all.take(i as int)),
            decreases src.len() - i,
        {
            assert(all[i as int] == src@[i as int]@);
            assert(all.take(i + 1).drop_last() =~= all.take(i as int));
            if src[i].is_dir {
                crate::depot::add_argument(&mut r, src[i].name.clone());
            }
            i += 1;
        }
        assert(all.take(all.len() as int) =~= all);
        r
    }

    /// All that happens to make the destination hold what the source holds, once its directories
    /// have been made.
    pub fn replace_dir(src: &Vec<Entry>, dst: &Vec<Entry>) -> (r: Vec<Action>)
        ensures
            r.deep_view() == replace_actions(src.deep_view(), dst.deep_view()),
    {
        let ghost sources = src.deep_view();
        let ghost present = dst.deep_view();
        let mut r: Vec<Action> = Vec::new();
        let mut i: usize = 0;
        assert(r.deep_view() =~= present_actions(sources, present.take(0)));
        while i < dst.len()
            invariant
                i <= dst.len(),
                sources == src.deep_view(),
                present == dst.deep_view(),
                r.deep_view() == present_actions(sources, present.take(i as int)),
            decreases dst.len() - i,
        {
            let ghost before = r.deep_view();
            assert(present[i as int] == dst@[i as int]@);
            assert(present.take(i + 1).drop_last() =~= present.take(i as int));
            let name: &String = &dst[i].name;
            let action: Option<Action> = match find_file(src, name.as_str()) {
                Some(source) => if source.seconds == dst[i].seconds && source.nanoseconds
                    == dst[i].nanoseconds {
                    None
                } else {
                    Some(
                        Action::Copy {
                            name: source.name.clone(),
                            seconds: source.seconds,
                            nanoseconds: source.nanoseconds,
                        },
                    )
                },
                None => if dst[i].is_dir {
                    if find_name(src, name.as_str()).0 {
                        None
                    } else {
                        Some(Action::RemoveDir { name: name.clone() })
                    }
                } else {
                    Some(Action::RemoveFile { name: name.clone() })
                },
            };
            assert(action.deep_view() == present_action(sources, present[i as int]));
            match action {
                Some(action) => {
                    let ghost added = action@;
                    r.push(action);
                    assert(r.deep_view() =~= before.push(added));
                },
                None => {},
            }
            i += 1;
        }
        assert(present.take(present.len() as int) =~= present);
        let ghost first = r.deep_view();
        let mut k: usize = 0;
        assert(r.deep_view() =~= first + absent_actions(sources.take(0), present));
        while k < src.len()
            invariant
                k <= src.len(),
                sources == src.deep_view(),
                present == dst.deep_view(),
                r.deep_view() == first + absent_actions(sources.take(k as int), present),
            decreases src.len() - k,
        {
            let ghost before = r.deep_view();
            assert(sources[k as int] == src@[k as int]@);
            assert(sources.take(k + 1).drop_last() =~= sources.take(k as int));
            if !src[k].is_dir && !find_name(dst, src[k].name.as_str()).1 {
                r.push(
                    Action::Copy {
                        name: src[k].name.clone(),
                        seconds: src[k].seconds,
                        nanoseconds: src[k].nanoseconds,
                    },
                );
                assert(r.deep_view() =~= before.push(copy_of(sources[k as int])));
            }
            assert(r.deep_view() =~= first + absent_actions(sources.take(k + 1), present));
            k += 1;
        }
        assert(sources.take(sources.len() as int) =~= sources);
        r
    }
}

/// Every directory among the entries is made and replaced in turn, in order, and no file is.
pub proof fn law_directories_one_by_one(entries: Seq<EntryView>, entry: EntryView)
    ensures
        directories(entries.push(entry)) == if entry.is_dir {
            directories(entries).push(entry.name)
        } else {
            directories(entries)
        },
        directories(Seq::empty()).len() == 0,
{
    assert(entries.push(entry).drop_last() =~= entries);
}

/// Nothing happens without need: only files of the source are copied, with their times; only what
/// is there is removed, as what it is; and no name that the source has a file of, and no directory
/// that the source has.
pub proof fn law_actions_are_needed(src: Seq<EntryView>, dst: Seq<EntryView>, k: int)
    requires
        0 <= k < replace_actions(src, dst).len(),
    ensures
        is_needed(src, dst, replace_actions(src, dst)[k]),
{
    let present = present_actions(src, dst);
    if k < present.len() {
        lemma_present_needed(src, dst, dst, k);
    } else {
        lemma_absent_needed(src, src, dst, k - present.len());
    }
}

/// There is a reason for the action.
pub open spec fn is_needed(
    src: Seq<EntryView>,
    dst: Seq<EntryView>,
    action: ActionView,
) -> bool {
    match action {
        ActionView::Copy { name, seconds, nanoseconds } => exists|i: int|
            0 <= i < src.len() && (#[trigger] src[i]).name == name && !src[i].is_dir
                && src[i].seconds == seconds && src[i].nanoseconds == nanoseconds,
        ActionView::RemoveDir { name } => {
            &&& exists|j: int|
                0 <= j < dst.len() && (#[trigger] dst[j]).name == name && dst[j].is_dir
            &&& forall|i: int| 0 <= i < src.len() ==> (#[trigger] src[i]).name != name
        },
        ActionView::RemoveFile { name } => {
            &&& exists|j: int|
                0 <= j < dst.len() && (#[trigger] dst[j]).name == name && !dst[j].is_dir
            &&& forall|i: int|
                0 <= i < src.len() && (#[trigger] src[i]).name == name ==> src[i].is_dir
        },
    }
}

proof fn lemma_present_needed(
    src: Seq<EntryView>,
    dst: Seq<EntryView>,
    all: Seq<EntryView>,
    k: int,
)
    requires
        0 <= k < present_actions(src, dst).len(),
        dst.is_prefix_of(all),
    ensures
        is_needed(src, all, present_actions(src, dst)[k]),
    decreases dst.len(),
{
    let front = dst.drop_last();
    let first = present_actions(src, front);
    if k < first.len() {
        assert(front =~= all.subrange(0, front.len() as int));
        lemma_present_needed(src, front, all, k);
    } else {
        let entry = dst.last();
        assert(all.subrange(0, dst.len() as int) =~= dst);
        assert(all[dst.len() - 1] == entry);
        lemma_find_named(src, entry.name);
        match file_named(src, entry.name) {
            Some(source) => {
                let i = choose|i: int| 0 <= i < src.len() && src[i] == source;
                assert(src[i].name == entry.name);
            },
            None => {},
        }
    }
}

proof fn lemma_absent_needed(
    src: Seq<EntryView>,
    all: Seq<EntryView>,
    dst: Seq<EntryView>,
    k: int,
)
    requires
        0 <= k < absent_actions(src, dst).len(),
        src.is_prefix_of(all),
    ensures
        is_needed(all, dst, absent_actions(src, dst)[k]),
    decreases src.len(),
{
    let front = src.drop_last();
    let first = absent_actions(front, dst);
    if k < first.len() {
        assert(front =~= all.subrange(0, front.len() as int));
        lemma_absent_needed(front, all, dst, k);
    } else {
        assert(all.subrange(0, src.len() as int) =~= src);
        assert(all[src.len() - 1] == src.last());
    }
}

/// A directory is replaced exactly where its source is there and its destination has a directory
/// around it, which is the one that has to be there.
pub proof fn law_replace_start(replacement: &Replacement, src_exists: bool, start: ReplaceStart)
    requires
        call_ensures(Depot::replace_start, (replacement, src_exists), start),
    ensures
        start is NoSource <==> !src_exists,
        start is Parent <==> src_exists && parent_of(replacement.dst@) is Some,
        start matches ReplaceStart::Parent(parent) ==> parent_of(replacement.dst@) == Some(parent@),
{
}

} // verus!
