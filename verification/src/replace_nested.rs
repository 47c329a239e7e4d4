//! Making a directory hold what another holds, with all that is inside.
use vstd::prelude::*;

use crate::replace::{
    absent_action, absent_actions, action_name, copy_of, directories, distinct, entry_named,
    file_named, has_dir, lemma_find_named, present_action, present_actions, replace_actions,
    ActionView, EntryView,
};

verus! {

/// What a name stands for in a directory, with all that is inside.
pub enum Item {
    File { seconds: i64, nanoseconds: u32, contents: Seq<u8> },
    Directory(Map<Seq<char>, Item>),
}

/// What a directory holds.
pub type Folder = Map<Seq<char>, Item>;

/// The entry is that of the item.
pub open spec fn is_entry(entry: EntryView, item: Item) -> bool {
    match item {
        Item::File { seconds, nanoseconds, .. } => !entry.is_dir && entry.seconds == seconds
            && entry.nanoseconds == nanoseconds,
        Item::Directory(_) => entry.is_dir,
    }
}

/// The entries are those of the directory, in some order.
pub open spec fn is_listing(entries: Seq<EntryView>, folder: Folder) -> bool {
    &&& distinct(entries)
    &&& forall|i: int|
        0 <= i < entries.len() ==> folder.dom().contains((#[trigger] entries[i]).name) && is_entry(
            entries[i],
            folder[entries[i].name],
        )
    &&& forall|name: Seq<char>| #[trigger]
        folder.dom().contains(name) ==> entry_named(entries, name) is Some
}

/// What the directory of a name holds, which is nothing where there is none.
pub open spec fn folder_at(folder: Folder, name: Seq<char>) -> Folder {
    if folder.dom().contains(name) {
        match folder[name] {
            Item::Directory(inner) => inner,
            Item::File { .. } => Map::empty(),
        }
    } else {
        Map::empty()
    }
}

/// A directory after a change, where files are copied from another.
pub open spec fn after_change(src: Folder, dst: Folder, action: ActionView) -> Folder {
    match action {
        ActionView::Copy { name, seconds, nanoseconds } => dst.insert(
            name,
            Item::File { seconds, nanoseconds, contents: src[name]->contents },
        ),
        ActionView::RemoveDir { name } => dst.remove(name),
        ActionView::RemoveFile { name } => dst.remove(name),
    }
}

/// A directory after changes, one after another.
pub open spec fn after_changes(src: Folder, dst: Folder, actions: Seq<ActionView>) -> Folder
    decreases actions.len(),
{
    if actions.len() == 0 {
        dst
    } else {
        after_change(src, after_changes(src, dst, actions.drop_last()), actions.last())
    }
}

/// The destination may become `result`, in whatever order the entries are listed: the directories
/// of the source are made and replaced in turn, and then the entries are dealt with.
pub open spec fn may_replace(src: Folder, dst: Folder, result: Folder) -> bool
    decreases src, 1nat, 0nat,
{
    src.dom().finite() && exists|listed: Seq<EntryView>, present: Seq<EntryView>, middle: Folder|
        #![trigger is_listing(listed, src), is_listing(present, middle)]
        {
            &&& is_listing(listed, src)
            &&& may_replace_each(src, dst, directories(listed), middle)
            &&& is_listing(present, middle)
            &&& result == after_changes(src, middle, replace_actions(listed, present))
        }
}

/// The destination may become `middle` once the directories of the names have been made and
/// replaced in turn.
pub open spec fn may_replace_each(
    src: Folder,
    dst: Folder,
    names: Seq<Seq<char>>,
    middle: Folder,
) -> bool
    decreases src, 0nat, names.len(),
{
    if names.len() == 0 {
        middle == dst
    } else {
        let name = names.last();
        src.dom().finite() && src.dom().contains(name) && match src[name] {
            Item::File { .. } => false,
            Item::Directory(from) => exists|before: Folder, inner: Folder|
                #![trigger before.insert(name, Item::Directory(inner))]
                {
                    &&& may_replace_each(src, dst, names.drop_last(), before)
                    &&& may_replace(from, folder_at(before, name), inner)
                    &&& middle == before.insert(name, Item::Directory(inner))
                },
        }
    }
}

/// At no depth is a name a file in one directory and a directory in the other.
pub open spec fn compatible(src: Folder, dst: Folder) -> bool
    decreases src,
{
    src.dom().finite() && forall|name: Seq<char>| #[trigger]
        src.dom().contains(name) && dst.dom().contains(name) ==> match (src[name], dst[name]) {
            (Item::File { .. }, Item::File { .. }) => true,
            (Item::Directory(from), Item::Directory(to)) => compatible(from, to),
            _ => false,
        }
}

/// What becomes of a file of the source in the destination: it stays as it is where there is one of
/// the same time, and is a copy else.
pub open spec fn kept_or_copied(src: Folder, dst: Folder, name: Seq<char>) -> Item {
    if dst.dom().contains(name) && dst[name] is File && dst[name]->seconds == src[name]->seconds
        && dst[name]->nanoseconds == src[name]->nanoseconds {
        dst[name]
    } else {
        src[name]
    }
}

/// The destination has become what it should: at every depth it has the names of the source and no
/// others, directories are directories, and each file is kept or copied.
pub open spec fn is_replaced(src: Folder, dst: Folder, result: Folder) -> bool
    decreases src,
{
    &&& src.dom().finite()
    &&& result.dom() == src.dom()
    &&& forall|name: Seq<char>| #[trigger]
        src.dom().contains(name) ==> match src[name] {
            Item::File { .. } => result[name] == kept_or_copied(src, dst, name),
            Item::Directory(from) => match result[name] {
                Item::Directory(to) => is_replaced(from, folder_at(dst, name), to),
                Item::File { .. } => false,
            },
        }
}

/// The directories have the same names, of the same kinds, and files of the same times, at every
/// depth.
pub open spec fn same_at_every_depth(src: Folder, dst: Folder) -> bool
    decreases src,
{
    &&& src.dom().finite()
    &&& dst.dom() == src.dom()
    &&& forall|name: Seq<char>| #[trigger]
        src.dom().contains(name) ==> match (src[name], dst[name]) {
            (
                Item::File { seconds, nanoseconds, .. },
                Item::File { seconds: s, nanoseconds: n, .. },
            ) => s == seconds && n == nanoseconds,
            (Item::Directory(from), Item::Directory(to)) => same_at_every_depth(from, to),
            _ => false,
        }
}

/// The last of the actions that change a name.
spec fn last_of(actions: Seq<ActionView>, name: Seq<char>) -> Option<ActionView>
    decreases actions.len(),
{
    if actions.len() == 0 {
        None
    } else if action_name(actions.last()) == name {
        Some(actions.last())
    } else {
        last_of(actions.drop_last(), name)
    }
}

/// The last action on a name decides what it stands for.
proof fn lemma_changes(src: Folder, dst: Folder, actions: Seq<ActionView>, name: Seq<char>)
    ensures
        ({
            let after = after_changes(src, dst, actions);
            match last_of(actions, name) {
                None => after.dom().contains(name) == dst.dom().contains(name) && (
                dst.dom().contains(name) ==> after[name] == dst[name]),
                Some(ActionView::Copy { seconds, nanoseconds, .. }) => after.dom().contains(name)
                    && after[name] == (Item::File {
                    seconds,
                    nanoseconds,
                    contents: src[name]->contents,
                }),
                Some(_) => !after.dom().contains(name),
            }
        }),
    decreases actions.len(),
{
    if actions.len() > 0 {
        lemma_changes(src, dst, actions.drop_last(), name);
    }
}

proof fn lemma_last_of_both(first: Seq<ActionView>, second: Seq<ActionView>, name: Seq<char>)
    ensures
        last_of(first + second, name) == match last_of(second, name) {
            Some(action) => Some(action),
            None => last_of(first, name),
        },
    decreases second.len(),
{
    if second.len() == 0 {
        assert(first + second =~= first);
    } else {
        assert((first + second).drop_last() =~= first + second.drop_last());
        lemma_last_of_both(first, second.drop_last(), name);
    }
}

/// What happens to a name among the entries that are there already.
proof fn lemma_last_present(listed: Seq<EntryView>, present: Seq<EntryView>, name: Seq<char>)
    requires
        distinct(present),
    ensures
        forall|j: int|
            0 <= j < present.len() && #[trigger] present[j].name == name ==> last_of(
                present_actions(listed, present),
                name,
            ) == present_action(listed, present[j]),
        (forall|j: int| 0 <= j < present.len() ==> #[trigger] present[j].name != name) ==> last_of(
            present_actions(listed, present),
            name,
        ) is None,
    decreases present.len(),
{
    if present.len() > 0 {
        let front = present.drop_last();
        let last = present.last();
        assert forall|i: int, j: int| 0 <= i < j < front.len() implies #[trigger] front[i].name
            != #[trigger] front[j].name by {
            assert(front[i] == present[i] && front[j] == present[j]);
        }
        lemma_last_present(listed, front, name);
        lemma_find_named(listed, last.name);
        let before = present_actions(listed, front);
        match present_action(listed, last) {
            Some(action) => {
                assert(before.push(action).drop_last() =~= before);
                assert(action_name(action) == last.name);
            },
            None => {},
        }
        assert(last == present[present.len() - 1]);
        assert forall|j: int| 0 <= j < front.len() implies #[trigger] front[j].name
            != last.name by {
            assert(front[j] == present[j]);
            assert(present[j].name != present[present.len() - 1].name);
        }
        assert forall|j: int| 0 <= j < present.len() && #[trigger] present[j].name == name implies
            last_of(present_actions(listed, present), name) == present_action(
            listed,
            present[j],
        ) by {
            if j < present.len() - 1 {
                assert(front[j] == present[j]);
            }
        }
        if forall|j: int| 0 <= j < present.len() ==> #[trigger] present[j].name != name {
            assert forall|j: int| 0 <= j < front.len() implies #[trigger] front[j].name != name by {
                assert(front[j] == present[j]);
            }
            assert(present[present.len() - 1].name != name);
        }
    }
}

/// What happens to a name among the entries of the source.
proof fn lemma_last_absent(listed: Seq<EntryView>, present: Seq<EntryView>, name: Seq<char>)
    requires
        distinct(listed),
    ensures
        forall|i: int|
            0 <= i < listed.len() && #[trigger] listed[i].name == name ==> last_of(
                absent_actions(listed, present),
                name,
            ) == absent_action(present, listed[i]),
        (forall|i: int| 0 <= i < listed.len() ==> #[trigger] listed[i].name != name) ==> last_of(
            absent_actions(listed, present),
            name,
        ) is None,
    decreases listed.len(),
{
    if listed.len() > 0 {
        let front = listed.drop_last();
        let last = listed.last();
        assert forall|i: int, j: int| 0 <= i < j < front.len() implies #[trigger] front[i].name
            != #[trigger] front[j].name by {
            assert(front[i] == listed[i] && front[j] == listed[j]);
        }
        lemma_last_absent(front, present, name);
        let before = absent_actions(front, present);
        match absent_action(present, last) {
            Some(action) => {
                assert(before.push(action).drop_last() =~= before);
                assert(action_name(action) == last.name);
            },
            None => {},
        }
        assert(last == listed[listed.len() - 1]);
        assert forall|j: int| 0 <= j < front.len() implies #[trigger] front[j].name
            != last.name by {
            assert(front[j] == listed[j]);
            assert(listed[j].name != listed[listed.len() - 1].name);
        }
        assert forall|i: int| 0 <= i < listed.len() && #[trigger] listed[i].name == name implies
            last_of(absent_actions(listed, present), name) == absent_action(
            present,
            listed[i],
        ) by {
            if i < listed.len() - 1 {
                assert(front[i] == listed[i]);
            }
        }
        if forall|i: int| 0 <= i < listed.len() ==> #[trigger] listed[i].name != name {
            assert forall|i: int| 0 <= i < front.len() implies #[trigger] front[i].name != name by {
                assert(front[i] == listed[i]);
            }
            assert(listed[listed.len() - 1].name != name);
        }
    }
}

/// A name that is listed stands for something, and is listed once.
proof fn lemma_listed(entries: Seq<EntryView>, folder: Folder, name: Seq<char>)
    requires
        is_listing(entries, folder),
    ensures
        folder.dom().contains(name) ==> exists|i: int|
            0 <= i < entries.len() && #[trigger] entries[i].name == name && is_entry(
                entries[i],
                folder[name],
            ),
        !folder.dom().contains(name) ==> forall|i: int|
            0 <= i < entries.len() ==> #[trigger] entries[i].name != name,
        entry_named(entries, name) is Some <==> folder.dom().contains(name),
        has_dir(entries, name) <==> folder.dom().contains(name) && folder[name] is Directory,
        match file_named(entries, name) {
            Some(e) => folder.dom().contains(name) && folder[name] is File && e.name == name
                && is_entry(e, folder[name]),
            None => folder.dom().contains(name) ==> folder[name] is Directory,
        },
{
    lemma_find_named(entries, name);
    if folder.dom().contains(name) {
        let e = entry_named(entries, name)->0;
        let i = choose|i: int| 0 <= i < entries.len() && entries[i] == e;
        assert(entries[i].name == name && is_entry(entries[i], folder[name]));
        if folder[name] is Directory {
            assert(entries[i].is_dir);
        }
    }
    if file_named(entries, name) is Some {
        let e = file_named(entries, name)->0;
        let i = choose|i: int| 0 <= i < entries.len() && entries[i] == e;
        assert(folder.dom().contains(entries[i].name));
    }
    if entry_named(entries, name) is Some {
        let e = entry_named(entries, name)->0;
        let i = choose|i: int| 0 <= i < entries.len() && entries[i] == e;
        assert(folder.dom().contains(entries[i].name));
    }
}

/// The directories of a listing are those that are there, each once.
proof fn lemma_directories(entries: Seq<EntryView>)
    requires
        distinct(entries),
    ensures
        directories(entries).no_duplicates(),
        forall|name: Seq<char>| #[trigger]
            directories(entries).contains(name) <==> has_dir(entries, name),
    decreases entries.len(),
{
    if entries.len() > 0 {
        let front = entries.drop_last();
        let last = entries.last();
        assert(last == entries[entries.len() - 1]);
        assert forall|i: int, j: int| 0 <= i < j < front.len() implies #[trigger] front[i].name
            != #[trigger] front[j].name by {
            assert(front[i] == entries[i] && front[j] == entries[j]);
        }
        lemma_directories(front);
        let before = directories(front);
        let all = directories(entries);
        assert(!has_dir(front, last.name)) by {
            if has_dir(front, last.name) {
                let i = choose|i: int|
                    0 <= i < front.len() && #[trigger] front[i].name == last.name && front[i].is_dir;
                assert(front[i] == entries[i]);
                assert(entries[i].name != entries[entries.len() - 1].name);
            }
        }
        assert(!before.contains(last.name));
        assert forall|name: Seq<char>| #[trigger] all.contains(name) <==> has_dir(
            entries,
            name,
        ) by {
            if all.contains(name) {
                let k = choose|k: int| 0 <= k < all.len() && all[k] == name;
                if k < before.len() {
                    assert(before[k] == name);
                    assert(before.contains(name));
                    let i = choose|i: int|
                        0 <= i < front.len() && #[trigger] front[i].name == name && front[i].is_dir;
                    assert(entries[i] == front[i]);
                    assert(entries[i].name == name && entries[i].is_dir);
                } else {
                    assert(entries[entries.len() - 1].name == name);
                }
            }
            if has_dir(entries, name) {
                let i = choose|i: int|
                    0 <= i < entries.len() && #[trigger] entries[i].name == name
                        && entries[i].is_dir;
                if i < front.len() {
                    assert(front[i] == entries[i]);
                    assert(front[i].name == name && front[i].is_dir);
                    assert(before.contains(name));
                    let k = choose|k: int| 0 <= k < before.len() && before[k] == name;
                    assert(all[k] == name);
                } else {
                    assert(all[all.len() - 1] == name);
                }
            }
        }
    }
}

/// The directories of the names have become what they should, and nothing else has changed.
proof fn lemma_each_replaced(
    src: Folder,
    dst: Folder,
    names: Seq<Seq<char>>,
    middle: Folder,
)
    requires
        compatible(src, dst),
        may_replace_each(src, dst, names, middle),
        names.no_duplicates(),
    ensures
        forall|name: Seq<char>| #[trigger]
            names.contains(name) ==> middle.dom().contains(name) && src.dom().contains(name) && match (
                src[name],
                middle[name],
            ) {
                (Item::Directory(from), Item::Directory(to)) => is_replaced(
                    from,
                    folder_at(dst, name),
                    to,
                ),
                _ => false,
            },
        forall|name: Seq<char>|
            !(#[trigger] names.contains(name)) ==> middle.dom().contains(name)
                == dst.dom().contains(name) && (dst.dom().contains(name) ==> middle[name]
                == dst[name]),
    decreases src, 0nat, names.len(),
{
    if names.len() > 0 {
        let name = names.last();
        let front = names.drop_last();
        let from = src[name]->Directory_0;
        assert(src[name] == Item::Directory(from));
        let (before, inner) = choose|before: Folder, inner: Folder|
            #![trigger before.insert(name, Item::Directory(inner))]
            {
                &&& may_replace_each(src, dst, front, before)
                &&& may_replace(from, folder_at(before, name), inner)
                &&& middle == before.insert(name, Item::Directory(inner))
            };
        assert(front.no_duplicates());
        lemma_each_replaced(src, dst, front, before);
        assert(!front.contains(name)) by {
            if front.contains(name) {
                let k = choose|k: int| 0 <= k < front.len() && front[k] == name;
                assert(names[k] == names[names.len() - 1]);
            }
        }
        assert(folder_at(before, name) == folder_at(dst, name));
        assert(compatible(from, folder_at(dst, name))) by {
            if dst.dom().contains(name) {
                assert(src.dom().contains(name) && dst.dom().contains(name));
            }
        }
        law_replaced_at_every_depth(from, folder_at(dst, name), inner);
        assert forall|other: Seq<char>| #[trigger] names.contains(other) <==> front.contains(other)
            || other == name by {
            if names.contains(other) {
                let k = choose|k: int| 0 <= k < names.len() && names[k] == other;
                if k < front.len() {
                    assert(front[k] == other);
                }
            }
            if front.contains(other) {
                let k = choose|k: int| 0 <= k < front.len() && front[k] == other;
                assert(names[k] == other);
            }
            if other == name {
                assert(names[names.len() - 1] == other);
            }
        }
    }
}

/// However the entries are listed, a directory that is replaced has at every depth the names of the
/// source and no others, where a name never is a file in one directory and a directory in the
/// other. A file whose time was the same already is not touched, and every other one is a copy of
/// the one in the source.
pub proof fn law_replaced_at_every_depth(src: Folder, dst: Folder, result: Folder)
    requires
        compatible(src, dst),
        may_replace(src, dst, result),
    ensures
        is_replaced(src, dst, result),
    decreases src, 1nat, 0nat,
{
    let (listed, present, middle) = choose|
        listed: Seq<EntryView>,
        present: Seq<EntryView>,
        middle: Folder,
    |
        #![trigger is_listing(listed, src), is_listing(present, middle)]
        {
            &&& is_listing(listed, src)
            &&& may_replace_each(src, dst, directories(listed), middle)
            &&& is_listing(present, middle)
            &&& result == after_changes(src, middle, replace_actions(listed, present))
        };
    let names = directories(listed);
    lemma_directories(listed);
    lemma_each_replaced(src, dst, names, middle);
    assert forall|name: Seq<char>|
        #![trigger result.dom().contains(name)]
        #![trigger src.dom().contains(name)]
        result.dom().contains(name) == src.dom().contains(name) && (src.dom().contains(name)
            ==> match src[name] {
            Item::File { .. } => result[name] == kept_or_copied(src, dst, name),
            Item::Directory(from) => match result[name] {
                Item::Directory(to) => is_replaced(from, folder_at(dst, name), to),
                Item::File { .. } => false,
            },
        }) by {
        lemma_name_replaced(src, dst, listed, present, middle, name);
    }
    assert(result.dom() =~= src.dom());
}

/// What becomes of one name once the directories have been replaced.
proof fn lemma_name_replaced(
    src: Folder,
    dst: Folder,
    listed: Seq<EntryView>,
    present: Seq<EntryView>,
    middle: Folder,
    name: Seq<char>,
)
    requires
        compatible(src, dst),
        is_listing(listed, src),
        is_listing(present, middle),
        directories(listed).contains(name) ==> middle.dom().contains(name) && src.dom().contains(
            name,
        ) && match (src[name], middle[name]) {
            (Item::Directory(from), Item::Directory(to)) => is_replaced(
                from,
                folder_at(dst, name),
                to,
            ),
            _ => false,
        },
        !directories(listed).contains(name) ==> middle.dom().contains(name) == dst.dom().contains(
            name,
        ) && (dst.dom().contains(name) ==> middle[name] == dst[name]),
    ensures
        ({
            let result = after_changes(src, middle, replace_actions(listed, present));
            result.dom().contains(name) == src.dom().contains(name) && (src.dom().contains(name)
                ==> match src[name] {
                Item::File { .. } => result[name] == kept_or_copied(src, dst, name),
                Item::Directory(from) => match result[name] {
                    Item::Directory(to) => is_replaced(from, folder_at(dst, name), to),
                    Item::File { .. } => false,
                },
            })
        }),
{
    let actions = replace_actions(listed, present);
    lemma_directories(listed);
    lemma_listed(listed, src, name);
    lemma_listed(present, middle, name);
    lemma_changes(src, middle, actions, name);
    lemma_last_of_both(present_actions(listed, present), absent_actions(listed, present), name);
    lemma_last_present(listed, present, name);
    lemma_last_absent(listed, present, name);
    if src.dom().contains(name) && dst.dom().contains(name) {
        assert(src[name] is File <==> dst[name] is File);
    }
    if middle.dom().contains(name) {
        let j = choose|j: int|
            0 <= j < present.len() && #[trigger] present[j].name == name && is_entry(
                present[j],
                middle[name],
            );
        assert(last_of(absent_actions(listed, present), name) is None) by {
            if src.dom().contains(name) {
                let i = choose|i: int|
                    0 <= i < listed.len() && #[trigger] listed[i].name == name && is_entry(
                        listed[i],
                        src[name],
                    );
                assert(absent_action(present, listed[i]) is None);
            }
        }
        assert(last_of(actions, name) == present_action(listed, present[j]));
    } else if src.dom().contains(name) {
        let i = choose|i: int|
            0 <= i < listed.len() && #[trigger] listed[i].name == name && is_entry(
                listed[i],
                src[name],
            );
        assert(src[name] is File);
        assert(last_of(actions, name) == Some(copy_of(listed[i])));
    }
}

/// A directory that has become what it should has the same names, of the same kinds, and files of
/// the same times, at every depth.
pub proof fn law_replaced_is_the_same(src: Folder, dst: Folder, result: Folder)
    requires
        is_replaced(src, dst, result),
    ensures
        same_at_every_depth(src, result),
    decreases src,
{
    assert forall|name: Seq<char>| #[trigger] src.dom().contains(name) implies match (
        src[name],
        result[name],
    ) {
        (
            Item::File { seconds, nanoseconds, .. },
            Item::File { seconds: s, nanoseconds: n, .. },
        ) => s == seconds && n == nanoseconds,
        (Item::Directory(from), Item::Directory(to)) => same_at_every_depth(from, to),
        _ => false,
    } by {
        match (src[name], result[name]) {
            (Item::Directory(from), Item::Directory(to)) => {
                law_replaced_is_the_same(from, folder_at(dst, name), to);
            },
            _ => {},
        }
    }
}

} // verus!
