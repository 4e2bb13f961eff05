//! The change watcher's index from watched paths to locations, and what a
//! filesystem event does to it.

use vstd::prelude::*;
use crate::backup_entity::{views, BackupEntity, EntityView};
use crate::path::{covers, WatchPath};

verus! {

/// How long a burst of filesystem activity is collected before it is reported
/// as one event, in seconds.
pub const DEBOUNCE_SECONDS: u64 = 60;

/// What the index holds for a watched path: the place of the location in the
/// registry, and whether the location is watched recursively.
#[derive(Clone, Copy, Debug, PartialEq, Eq, Structural)]
pub struct Slot {
    pub location: usize,
    pub recursive: bool,
}

/// A filesystem notification after debouncing.
#[derive(Debug)]
pub enum FsEvent {
    NoticeWrite(WatchPath),
    NoticeRemove(WatchPath),
    Create(WatchPath),
    Write(WatchPath),
    Chmod(WatchPath),
    Remove(WatchPath),
    /// A move from the first path to the second.
    Rename(WatchPath, WatchPath),
    Rescan,
    Error,
}

/// One path to subscribe to, with its recursion mode.
#[derive(Debug)]
pub struct WatchRequest {
    pub path: WatchPath,
    pub recursive: bool,
}

/// A location that a rename moved, and the path it now has.
#[derive(Debug)]
pub struct Relocation {
    pub location: usize,
    pub path: WatchPath,
}

/// What an event means for the registry: which location moved, and which
/// location counts one change.
#[derive(Debug)]
pub struct Attribution {
    pub moved: Option<Relocation>,
    pub changed: Option<usize>,
}

/// The slot under `key`, if the index has one.
pub open spec fn lookup(table: Map<Seq<Seq<char>>, Slot>, key: Seq<Seq<char>>) -> Option<Slot> {
    if table.dom().contains(key) {
        Some(table[key])
    } else {
        None
    }
}

/// The location that takes an event at `path`, looking only at the ancestors
/// of `path` with at most `depth` components: the deepest one that is
/// registered and covers the path.
pub open spec fn resolved_from(table: Map<Seq<Seq<char>>, Slot>, path: Seq<Seq<char>>, depth: nat)
    -> Option<usize>
    decreases depth,
{
    let key = path.subrange(0, depth as int);
    if table.dom().contains(key) && covers(key, table[key].recursive, path) {
        Some(table[key].location)
    } else if depth == 0 {
        None
    } else {
        resolved_from(table, path, (depth - 1) as nat)
    }
}

/// The location that takes an event at `path`: the path itself is tried
/// first, then its parent, and so on up to the root. The first registered
/// path that covers the event wins, so of two nested locations the more
/// specific one takes the event.
pub open spec fn resolved(table: Map<Seq<Seq<char>>, Slot>, path: Seq<Seq<char>>) -> Option<usize> {
    resolved_from(table, path, path.len())
}

/// Whether `key` is a registered path that covers `path` and no registered
/// path that covers `path` is deeper.
pub open spec fn wins(table: Map<Seq<Seq<char>>, Slot>, key: Seq<Seq<char>>, path: Seq<Seq<char>>)
    -> bool {
    &&& table.dom().contains(key)
    &&& covers(key, table[key].recursive, path)
    &&& forall|other: Seq<Seq<char>>|
        #[trigger] table.dom().contains(other) && covers(other, table[other].recursive, path)
            ==> other.len() <= key.len()
}

/// The index after the entry under `from` moved to `to`. Without an entry
/// under `from` nothing changes. An entry that was under `to` is replaced.
pub open spec fn renamed(table: Map<Seq<Seq<char>>, Slot>, from: Seq<Seq<char>>, to: Seq<Seq<char>>)
    -> Map<Seq<Seq<char>>, Slot> {
    if table.dom().contains(from) {
        table.remove(from).insert(to, table[from])
    } else {
        table
    }
}

/// The index that a registry starts with: each location under its path. Of
/// two locations with the same path the later one is indexed.
pub open spec fn index_of(entities: Seq<EntityView>) -> Map<Seq<Seq<char>>, Slot>
    decreases entities.len(),
{
    if entities.len() == 0 {
        Map::empty()
    } else {
        index_of(entities.drop_last()).insert(
            entities.last().path,
            Slot { location: (entities.len() - 1) as usize, recursive: entities.last().recursive },
        )
    }
}

/// Whether the index agrees with the registry: every entry points at a
/// location of the registry that has the entry's path and recursion mode.
pub open spec fn indexes(table: Map<Seq<Seq<char>>, Slot>, entities: Seq<EntityView>) -> bool {
    forall|key: Seq<Seq<char>>| #[trigger]
        table.dom().contains(key) ==> {
            &&& (table[key].location as int) < entities.len()
            &&& entities[table[key].location as int].path == key
            &&& entities[table[key].location as int].recursive == table[key].recursive
        }
}

/// Whether `list` names every path of the index once, each with the
/// recursion mode of its location, and nothing else.
pub open spec fn lists(list: Seq<WatchRequest>, table: Map<Seq<Seq<char>>, Slot>) -> bool {
    &&& forall|i: int|
        0 <= i < list.len() ==> table.dom().contains(#[trigger] list[i].path@)
            && table[list[i].path@].recursive == list[i].recursive
    &&& forall|key: Seq<Seq<char>>| #[trigger]
        table.dom().contains(key) ==> exists|i: int|
            0 <= i < list.len() && #[trigger] list[i].path@ == key
    &&& forall|i: int, j: int|
        0 <= i < j < list.len() ==> #[trigger] list[i].path@ != #[trigger] list[j].path@
}

impl FsEvent {
    /// The path at which the event counts as a change: the path of a plain
    /// event, the new path of a rename, nothing for the others.
    pub open spec fn spec_changed_path(self) -> Option<WatchPath> {
        match self {
            FsEvent::NoticeWrite(path) => Some(path),
            FsEvent::NoticeRemove(path) => Some(path),
            FsEvent::Create(path) => Some(path),
            FsEvent::Write(path) => Some(path),
            FsEvent::Chmod(path) => Some(path),
            FsEvent::Remove(path) => Some(path),
            FsEvent::Rename(_, to) => Some(to),
            FsEvent::Rescan => None,
            FsEvent::Error => None,
        }
    }

    /// The path at which the event counts as a change.
    pub fn changed_path(&self) -> (path: Option<&WatchPath>)
        ensures
            match path {
                Some(p) => self.spec_changed_path() == Some(*p),
                None => self.spec_changed_path() is None,
            },
    {
        match self {
            FsEvent::NoticeWrite(path) => Some(path),
            FsEvent::NoticeRemove(path) => Some(path),
            FsEvent::Create(path) => Some(path),
            FsEvent::Write(path) => Some(path),
            FsEvent::Chmod(path) => Some(path),
            FsEvent::Remove(path) => Some(path),
            FsEvent::Rename(_, to) => Some(to),
            FsEvent::Rescan => None,
            FsEvent::Error => None,
        }
    }
}

/// The index after `event`: a rename moves an entry, nothing else changes it.
pub open spec fn table_after(table: Map<Seq<Seq<char>>, Slot>, event: FsEvent) -> Map<
    Seq<Seq<char>>,
    Slot,
> {
    match event {
        FsEvent::Rename(from, to) => renamed(table, from@, to@),
        _ => table,
    }
}

/// The location that `event` moves: the one registered under the old path of
/// a rename.
pub open spec fn moved_by(table: Map<Seq<Seq<char>>, Slot>, event: FsEvent) -> Option<usize> {
    match event {
        FsEvent::Rename(from, _) => match lookup(table, from@) {
            Some(slot) => Some(slot.location),
            None => None,
        },
        _ => None,
    }
}

/// The location that counts `event` as a change, resolved in the index as it
/// is after the event.
pub open spec fn counted_by(table: Map<Seq<Seq<char>>, Slot>, event: FsEvent) -> Option<usize> {
    match event.spec_changed_path() {
        Some(path) => resolved(table_after(table, event), path@),
        None => None,
    }
}

/// What `resolved_from` finds is the deepest registered ancestor with at most
/// `depth` components that covers the path; it finds nothing only where no
/// such ancestor covers the path.
proof fn lemma_resolved_from(table: Map<Seq<Seq<char>>, Slot>, path: Seq<Seq<char>>, depth: nat)
    requires
        depth <= path.len(),
    ensures
        match resolved_from(table, path, depth) {
            Some(location) => exists|key: Seq<Seq<char>>|
                {
                    &&& #[trigger] table.dom().contains(key)
                    &&& key.len() <= depth
                    &&& covers(key, table[key].recursive, path)
                    &&& table[key].location == location
                    &&& forall|other: Seq<Seq<char>>|
                        #[trigger] table.dom().contains(other) && other.len() <= depth && covers(
                            other,
                            table[other].recursive,
                            path,
                        ) ==> other.len() <= key.len()
                },
            None => forall|key: Seq<Seq<char>>|
                #[trigger] table.dom().contains(key) && key.len() <= depth ==> !covers(
                    key,
                    table[key].recursive,
                    path,
                ),
        },
    decreases depth,
{
    let here = path.subrange(0, depth as int);
    if table.dom().contains(here) && covers(here, table[here].recursive, path) {
        assert(here.len() == depth);
    } else {
        assert forall|other: Seq<Seq<char>>|
            table.dom().contains(other) && other.len() == depth && covers(
                other,
                table[other].recursive,
                path,
            ) implies false by {
            assert(other =~= here);
        }
        if depth > 0 {
            lemma_resolved_from(table, path, (depth - 1) as nat);
        }
    }
}

/// The location that takes an event is registered under the deepest path that
/// covers the event, and an event is taken by no location only where no
/// registered path covers it.
pub proof fn lemma_resolved_is_longest_match(table: Map<Seq<Seq<char>>, Slot>, path: Seq<Seq<char>>)
    ensures
        match resolved(table, path) {
            Some(location) => exists|key: Seq<Seq<char>>|
                wins(table, key, path) && table[key].location == location,
            None => forall|key: Seq<Seq<char>>| #[trigger]
                table.dom().contains(key) ==> !covers(key, table[key].recursive, path),
        },
{
    lemma_resolved_from(table, path, path.len());
    match resolved(table, path) {
        Some(location) => {
            let key = choose|key: Seq<Seq<char>>|
                {
                    &&& #[trigger] table.dom().contains(key)
                    &&& key.len() <= path.len()
                    &&& covers(key, table[key].recursive, path)
                    &&& table[key].location == location
                    &&& forall|other: Seq<Seq<char>>|
                        #[trigger] table.dom().contains(other) && other.len() <= path.len()
                            && covers(other, table[other].recursive, path) ==> other.len()
                            <= key.len()
                };
            assert(wins(table, key, path));
        },
        None => {},
    }
}

/// At most one registered path wins an event.
pub proof fn lemma_winner_is_unique(
    table: Map<Seq<Seq<char>>, Slot>,
    path: Seq<Seq<char>>,
    first: Seq<Seq<char>>,
    second: Seq<Seq<char>>,
)
    requires
        wins(table, first, path),
        wins(table, second, path),
    ensures
        first == second,
{
    assert(table.dom().contains(first));
    assert(table.dom().contains(second));
    assert(first =~= second);
}

/// Nested watched paths: where two registered paths both cover an event and
/// one is deeper, the event is not taken by the location of the shallower
/// one.
pub proof fn lemma_nested_paths_count_once(
    table: Map<Seq<Seq<char>>, Slot>,
    entities: Seq<EntityView>,
    path: Seq<Seq<char>>,
    outer: Seq<Seq<char>>,
    inner: Seq<Seq<char>>,
)
    requires
        indexes(table, entities),
        table.dom().contains(outer),
        table.dom().contains(inner),
        covers(outer, table[outer].recursive, path),
        covers(inner, table[inner].recursive, path),
        outer.len() < inner.len(),
    ensures
        resolved(table, path) is Some,
        resolved(table, path) != Some(table[outer].location),
{
    lemma_resolved_is_longest_match(table, path);
    match resolved(table, path) {
        Some(location) => {
            let key = choose|key: Seq<Seq<char>>|
                wins(table, key, path) && table[key].location == location;
            assert(table.dom().contains(inner));
            assert(inner.len() <= key.len());
            assert(table.dom().contains(key));
            assert(table.dom().contains(outer));
        },
        None => {
            assert(table.dom().contains(inner));
        },
    }
}

/// The index of a registry agrees with the registry, for a registry that
/// fits in memory.
pub proof fn lemma_index_of_indexes(entities: Seq<EntityView>, count: nat)
    requires
        count <= entities.len() <= usize::MAX,
    ensures
        indexes(index_of(entities.take(count as int)), entities),
    decreases count,
{
    let taken = entities.take(count as int);
    if count > 0 {
        lemma_index_of_indexes(entities, (count - 1) as nat);
        assert(taken.len() == count);
        assert(taken.drop_last() =~= entities.take(count - 1));
        assert(taken.last() == entities[count - 1]);
        let before = index_of(entities.take(count - 1));
        let slot = Slot { location: (count - 1) as usize, recursive: taken.last().recursive };
        assert(index_of(taken) == before.insert(taken.last().path, slot));
        assert forall|key: Seq<Seq<char>>| #[trigger]
            index_of(taken).dom().contains(key) implies {
            &&& (index_of(taken)[key].location as int) < entities.len()
            &&& entities[index_of(taken)[key].location as int].path == key
            &&& entities[index_of(taken)[key].location as int].recursive == index_of(
                taken,
            )[key].recursive
        } by {
            if key != taken.last().path {
                assert(before.dom().contains(key));
            }
        }
    }
}

/// Moving an entry keeps the index in agreement with the registry, once the
/// location's record has taken the new path.
pub proof fn lemma_rename_keeps_agreement(
    table: Map<Seq<Seq<char>>, Slot>,
    entities: Seq<EntityView>,
    from: Seq<Seq<char>>,
    to: Seq<Seq<char>>,
    to_text: Seq<char>,
)
    requires
        indexes(table, entities),
        table.dom().contains(from),
    ensures
        indexes(
            renamed(table, from, to),
            entities.update(
                table[from].location as int,
                entities[table[from].location as int].moved(to, to_text),
            ),
        ),
{
    let location = table[from].location as int;
    let after = renamed(table, from, to);
    let records = entities.update(location, entities[location].moved(to, to_text));
    assert forall|key: Seq<Seq<char>>| #[trigger] after.dom().contains(key) implies {
        &&& (after[key].location as int) < records.len()
        &&& records[after[key].location as int].path == key
        &&& records[after[key].location as int].recursive == after[key].recursive
    } by {
        if key != to {
            assert(table.dom().contains(key));
            assert(key != from);
            assert(table[key].location as int != location);
        }
    }
}

struct Entry {
    path: WatchPath,
    slot: Slot,
}

spec fn distinct(entries: Seq<Entry>) -> bool {
    forall|i: int, j: int|
        #![trigger entries[i], entries[j]]
        0 <= i < j < entries.len() ==> entries[i].path@ != entries[j].path@
}

spec fn holds(entries: Seq<Entry>, i: int, key: Seq<Seq<char>>) -> bool {
    0 <= i < entries.len() && entries[i].path@ == key
}

spec fn table_of(entries: Seq<Entry>) -> Map<Seq<Seq<char>>, Slot> {
    Map::new(
        |key: Seq<Seq<char>>| exists|i: int| holds(entries, i, key),
        |key: Seq<Seq<char>>| entries[choose|i: int| holds(entries, i, key)].slot,
    )
}

proof fn lemma_table_at(entries: Seq<Entry>, i: int)
    requires
        distinct(entries),
        0 <= i < entries.len(),
    ensures
        table_of(entries).dom().contains(entries[i].path@),
        table_of(entries)[entries[i].path@] == entries[i].slot,
{
    let key = entries[i].path@;
    assert(holds(entries, i, key));
    let j = choose|j: int| holds(entries, j, key);
    assert(holds(entries, j, key));
    if j < i {
        assert(entries[j].path@ != entries[i].path@);
    }
    if i < j {
        assert(entries[i].path@ != entries[j].path@);
    }
}

proof fn lemma_table_push(entries: Seq<Entry>, entry: Entry)
    requires
        distinct(entries),
        forall|i: int| !holds(entries, i, entry.path@),
    ensures
        distinct(entries.push(entry)),
        table_of(entries.push(entry)) == table_of(entries).insert(entry.path@, entry.slot),
{
    let after = entries.push(entry);
    let last = entries.len() as int;
    assert forall|i: int, j: int| 0 <= i < j < after.len() implies after[i].path@
        != after[j].path@ by {
        if j == last {
            assert(!holds(entries, i, entry.path@));
        } else {
            assert(entries[i].path@ != entries[j].path@);
        }
    }
    let expected = table_of(entries).insert(entry.path@, entry.slot);
    assert forall|key: Seq<Seq<char>>| #[trigger] table_of(after).dom().contains(key) implies
        expected.dom().contains(key) && table_of(after)[key] == expected[key] by {
        let i = choose|i: int| holds(after, i, key);
        lemma_table_at(after, i);
        if i < last {
            assert(holds(entries, i, key));
            lemma_table_at(entries, i);
        }
    }
    assert forall|key: Seq<Seq<char>>| #[trigger] expected.dom().contains(key) implies table_of(
        after,
    ).dom().contains(key) by {
        if key == entry.path@ {
            assert(holds(after, last, key));
        } else {
            let i = choose|i: int| holds(entries, i, key);
            assert(holds(after, i, key));
        }
    }
    assert(table_of(after) =~= expected);
}

proof fn lemma_table_update(entries: Seq<Entry>, at: int, entry: Entry)
    requires
        distinct(entries),
        holds(entries, at, entry.path@),
    ensures
        distinct(entries.update(at, entry)),
        table_of(entries.update(at, entry)) == table_of(entries).insert(entry.path@, entry.slot),
{
    let after = entries.update(at, entry);
    assert forall|i: int, j: int| 0 <= i < j < after.len() implies after[i].path@
        != after[j].path@ by {
        assert(entries[i].path@ != entries[j].path@);
    }
    let expected = table_of(entries).insert(entry.path@, entry.slot);
    assert forall|key: Seq<Seq<char>>| #[trigger] table_of(after).dom().contains(key) implies
        expected.dom().contains(key) && table_of(after)[key] == expected[key] by {
        let i = choose|i: int| holds(after, i, key);
        lemma_table_at(after, i);
        if i != at {
            assert(holds(entries, i, key));
            lemma_table_at(entries, i);
            if i < at {
                assert(entries[i].path@ != entries[at].path@);
            } else {
                assert(entries[at].path@ != entries[i].path@);
            }
        }
    }
    assert forall|key: Seq<Seq<char>>| #[trigger] expected.dom().contains(key) implies table_of(
        after,
    ).dom().contains(key) by {
        if key == entry.path@ {
            assert(holds(after, at, key));
        } else {
            let i = choose|i: int| holds(entries, i, key);
            assert(holds(after, i, key));
        }
    }
    assert(table_of(after) =~= expected);
}

proof fn lemma_table_remove(entries: Seq<Entry>, at: int)
    requires
        distinct(entries),
        0 <= at < entries.len(),
    ensures
        distinct(entries.remove(at)),
        table_of(entries.remove(at)) == table_of(entries).remove(entries[at].path@),
{
    let after = entries.remove(at);
    let gone = entries[at].path@;
    assert forall|i: int, j: int| 0 <= i < j < after.len() implies after[i].path@
        != after[j].path@ by {
        let before_i = if i < at { i } else { i + 1 };
        let before_j = if j < at { j } else { j + 1 };
        assert(entries[before_i].path@ != entries[before_j].path@);
    }
    let expected = table_of(entries).remove(gone);
    assert forall|key: Seq<Seq<char>>| #[trigger] table_of(after).dom().contains(key) implies
        expected.dom().contains(key) && table_of(after)[key] == expected[key] by {
        let i = choose|i: int| holds(after, i, key);
        lemma_table_at(after, i);
        let before = if i < at { i } else { i + 1 };
        assert(holds(entries, before, key));
        lemma_table_at(entries, before);
        if before < at {
            assert(entries[before].path@ != entries[at].path@);
        } else {
            assert(entries[at].path@ != entries[before].path@);
        }
    }
    assert forall|key: Seq<Seq<char>>| #[trigger] expected.dom().contains(key) implies table_of(
        after,
    ).dom().contains(key) by {
        let i = choose|i: int| holds(entries, i, key);
        assert(i != at);
        let now = if i < at { i } else { i - 1 };
        assert(holds(after, now, key));
    }
    assert(table_of(after) =~= expected);
}

/// The watcher's index: for each watched path the location registered under
/// it. No path is in it twice.
pub struct LookupTable {
    entries: Vec<Entry>,
}

impl View for LookupTable {
    type V = Map<Seq<Seq<char>>, Slot>;

    closed spec fn view(&self) -> Map<Seq<Seq<char>>, Slot> {
        table_of(self.entries@)
    }
}

impl LookupTable {
    #[verifier::type_invariant]
    spec fn well_formed(&self) -> bool {
        distinct(self.entries@)
    }

    /// An index without entries.
    pub fn new() -> (table: Self)
        ensures
            table@ == Map::<Seq<Seq<char>>, Slot>::empty(),
    {
        let table = LookupTable { entries: Vec::new() };
        assert(table@ =~= Map::<Seq<Seq<char>>, Slot>::empty());
        table
    }

    /// The place of the entry whose path is `path` cut off after `depth`
    /// components.
    fn position_at(&self, path: &WatchPath, depth: usize) -> (found: Option<usize>)
        requires
            depth <= path@.len(),
        ensures
            match found {
                Some(i) => holds(self.entries@, i as int, path@.subrange(0, depth as int)),
                None => forall|i: int| !holds(self.entries@, i, path@.subrange(0, depth as int)),
            },
    {
        let mut i: usize = 0;
        while i < self.entries.len()
            invariant
                i <= self.entries.len(),
                depth <= path@.len(),
                forall|k: int| 0 <= k < i ==> !holds(self.entries@, k, path@.subrange(0, depth as int)),
            decreases self.entries.len() - i,
        {
            if self.entries[i].path.is_ancestor_at(path, depth) {
                return Some(i);
            }
            i += 1;
        }
        None
    }

    /// The slot registered under `path`.
    pub fn get(&self, path: &WatchPath) -> (slot: Option<Slot>)
        ensures
            slot == lookup(self@, path@),
    {
        proof {
            use_type_invariant(self);
            assert(path@.subrange(0, path@.len() as int) =~= path@);
        }
        match self.position_at(path, path.depth()) {
            Some(i) => {
                proof {
                    lemma_table_at(self.entries@, i as int);
                }
                Some(self.entries[i].slot)
            },
            None => None,
        }
    }

    /// Registers `slot` under `path`, in place of what was registered there.
    pub fn insert(&mut self, path: WatchPath, slot: Slot)
        ensures
            final(self)@ == old(self)@.insert(path@, slot),
    {
        proof {
            use_type_invariant(&*self);
            assert(path@.subrange(0, path@.len() as int) =~= path@);
        }
        let found = self.position_at(&path, path.depth());
        let entry = Entry { path, slot };
        let mut entries: Vec<Entry> = Vec::new();
        std::mem::swap(&mut self.entries, &mut entries);
        match found {
            Some(i) => {
                proof {
                    lemma_table_update(entries@, i as int, entry);
                }
                entries.set(i, entry);
            },
            None => {
                proof {
                    lemma_table_push(entries@, entry);
                }
                entries.push(entry);
            },
        }
        std::mem::swap(&mut self.entries, &mut entries);
    }

    /// Takes the entry under `path` out of the index and returns its slot.
    pub fn remove(&mut self, path: &WatchPath) -> (slot: Option<Slot>)
        ensures
            final(self)@ == old(self)@.remove(path@),
            slot == lookup(old(self)@, path@),
    {
        proof {
            use_type_invariant(&*self);
            assert(path@.subrange(0, path@.len() as int) =~= path@);
        }
        match self.position_at(path, path.depth()) {
            Some(i) => {
                proof {
                    lemma_table_at(self.entries@, i as int);
                    lemma_table_remove(self.entries@, i as int);
                }
                let mut entries: Vec<Entry> = Vec::new();
                std::mem::swap(&mut self.entries, &mut entries);
                let entry = entries.remove(i);
                std::mem::swap(&mut self.entries, &mut entries);
                Some(entry.slot)
            },
            None => {
                assert(self@ =~= self@.remove(path@));
                None
            },
        }
    }

    /// The location that takes an event at `path`: the one registered under
    /// the deepest path that covers the event.
    pub fn resolve(&self, path: &WatchPath) -> (location: Option<usize>)
        ensures
            location == resolved(self@, path@),
    {
        proof {
            use_type_invariant(self);
        }
        let length = path.depth();
        let mut depth = length;
        loop
            invariant
                depth <= length == path@.len(),
                distinct(self.entries@),
                resolved(self@, path@) == resolved_from(self@, path@, depth as nat),
            decreases depth,
        {
            let ghost key = path@.subrange(0, depth as int);
            match self.position_at(path, depth) {
                Some(i) => {
                    proof {
                        lemma_table_at(self.entries@, i as int);
                    }
                    let slot = self.entries[i].slot;
                    if slot.recursive || length - depth <= 1 {
                        return Some(slot.location);
                    }
                },
                None => {
                    assert(!self@.dom().contains(key));
                },
            }
            if depth == 0 {
                return None;
            }
            depth -= 1;
        }
    }

    /// Moves the entry under `from` to `to` and returns the location that it
    /// points at. Without an entry under `from` the index stays as it is.
    pub fn rename(&mut self, from: &WatchPath, to: &WatchPath) -> (moved: Option<usize>)
        ensures
            final(self)@ == renamed(old(self)@, from@, to@),
            moved == match lookup(old(self)@, from@) {
                Some(slot) => Some(slot.location),
                None => None,
            },
    {
        match self.remove(from) {
            Some(slot) => {
                self.insert(to.clone(), slot);
                Some(slot.location)
            },
            None => None,
        }
    }

    /// Takes one event: a rename moves the entry of the old path to the new
    /// one, and every event but `Rescan` and `Error` is counted as one change
    /// by the location that takes its path.
    pub fn handle(&mut self, event: &FsEvent) -> (attribution: Attribution)
        ensures
            final(self)@ == table_after(old(self)@, *event),
            attribution.changed == counted_by(old(self)@, *event),
            match attribution.moved {
                Some(relocation) => {
                    &&& moved_by(old(self)@, *event) == Some(relocation.location)
                    &&& event matches FsEvent::Rename(_, to)
                    &&& relocation.path@ == to@
                    &&& relocation.path.text@ == to.text@
                },
                None => moved_by(old(self)@, *event) is None,
            },
    {
        let moved = match event {
            FsEvent::Rename(from, to) => match self.rename(from, to) {
                Some(location) => Some(Relocation { location, path: to.clone() }),
                None => None,
            },
            _ => None,
        };
        let changed = match event.changed_path() {
            Some(path) => self.resolve(path),
            None => None,
        };
        Attribution { moved, changed }
    }

    /// The index that a registry starts with.
    pub fn build(entities: &Vec<BackupEntity>) -> (table: Self)
        ensures
            table@ == index_of(views(entities@)),
            indexes(table@, views(entities@)),
    {
        let ghost records = views(entities@);
        let mut table = LookupTable::new();
        let mut i: usize = 0;
        while i < entities.len()
            invariant
                i <= entities.len(),
                records == views(entities@),
                table@ == index_of(records.take(i as int)),
            decreases entities.len() - i,
        {
            proof {
                assert(records.take(i + 1).drop_last() =~= records.take(i as int));
                assert(records.take(i + 1).last() == entities[i as int]@);
            }
            table.insert(entities[i].path.clone(), Slot { location: i, recursive: entities[i].recursive });
            i += 1;
        }
        proof {
            assert(records.take(i as int) =~= records);
            lemma_index_of_indexes(records, records.len());
        }
        table
    }

    /// The paths to subscribe to: every registered path once, with the
    /// recursion mode of its location.
    pub fn watch_list(&self) -> (list: Vec<WatchRequest>)
        ensures
            lists(list@, self@),
    {
        proof {
            use_type_invariant(self);
        }
        let mut list: Vec<WatchRequest> = Vec::new();
        let mut i: usize = 0;
        while i < self.entries.len()
            invariant
                i <= self.entries.len(),
                distinct(self.entries@),
                list.len() == i,
                forall|k: int|
                    #![trigger list[k]]
                    0 <= k < i ==> list[k].path@ == self.entries[k].path@ && list[k].recursive
                        == self.entries[k].slot.recursive,
            decreases self.entries.len() - i,
        {
            let path = self.entries[i].path.clone();
            list.push(WatchRequest { path, recursive: self.entries[i].slot.recursive });
            i += 1;
        }
        proof {
            assert forall|k: int| 0 <= k < list.len() implies self@.dom().contains(
                #[trigger] list[k].path@,
            ) && self@[list[k].path@].recursive == list[k].recursive by {
                lemma_table_at(self.entries@, k);
            }
            assert forall|key: Seq<Seq<char>>| #[trigger] self@.dom().contains(key) implies exists|
                k: int,
            |
                0 <= k < list.len() && #[trigger] list[k].path@ == key by {
                let k = choose|k: int| holds(self.entries@, k, key);
                assert(list[k].path@ == key);
            }
            assert forall|a: int, b: int| 0 <= a < b < list.len() implies #[trigger] list[a].path@
                != #[trigger] list[b].path@ by {
                assert(self.entries[a].path@ != self.entries[b].path@);
            }
        }
        list
    }
}

} // verus!
