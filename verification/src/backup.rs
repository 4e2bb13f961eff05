//! The registry of watched locations with its index, and the steps of the
//! change watcher and of the trigger evaluator on it.

use vstd::prelude::*;
use crate::backup_entity::{reported, views, BackupEntity, BackupError, EntityView, ExecOutcome};
use crate::global::Global;
use crate::path::{covers, WatchPath};
use crate::report::Report;
use crate::watcher::{
    counted_by,
    index_of,
    indexes,
    lemma_rename_keeps_agreement,
    lemma_resolved_is_longest_match,
    lists,
    lookup,
    moved_by,
    renamed,
    resolved,
    resolved_from,
    table_after,
    wins,
    Attribution,
    FsEvent,
    LookupTable,
    Slot,
    WatchRequest,
};

verus! {

/// How long the evaluator waits between two passes over the registry, in
/// seconds.
pub const EVALUATION_PERIOD_SECONDS: u64 = 60;

/// The registry after the rename that `event` reports: the location that was
/// registered under the old path has the new one. Its counter and the time of
/// its last run are as before.
pub open spec fn relocated(
    entities: Seq<EntityView>,
    table: Map<Seq<Seq<char>>, Slot>,
    event: FsEvent,
) -> Seq<EntityView> {
    match event {
        FsEvent::Rename(from, to) => match lookup(table, from@) {
            Some(slot) => entities.update(
                slot.location as int,
                entities[slot.location as int].moved(to@, to.text@),
            ),
            None => entities,
        },
        _ => entities,
    }
}

/// The registry after `location` counted one change.
pub open spec fn counted(entities: Seq<EntityView>, location: Option<usize>) -> Seq<EntityView> {
    match location {
        Some(at) => entities.update(at as int, entities[at as int].noted()),
        None => entities,
    }
}

/// The registry after `event`: a rename moves its location first, then the
/// location that takes the event's path counts one change.
pub open spec fn observed(
    entities: Seq<EntityView>,
    table: Map<Seq<Seq<char>>, Slot>,
    event: FsEvent,
) -> Seq<EntityView> {
    counted(relocated(entities, table, event), counted_by(table, event))
}

/// The registry after what `attribution` says was done to it.
pub open spec fn applied(entities: Seq<EntityView>, attribution: Attribution) -> Seq<EntityView> {
    counted(
        match attribution.moved {
            Some(relocation) => entities.update(
                relocation.location as int,
                entities[relocation.location as int].moved(
                    relocation.path@,
                    relocation.path.text@,
                ),
            ),
            None => entities,
        },
        attribution.changed,
    )
}

/// What the daemon does at startup.
#[derive(Debug)]
pub enum Startup {
    /// Nothing is registered: no background work is started.
    Idle,
    /// The watcher subscribes to these paths and the evaluator starts its
    /// passes.
    Watch { watches: Vec<WatchRequest> },
}

/// Does to a list of locations what `attribution` says: the moved location
/// takes its new path, then the location that takes the event counts one
/// change.
pub fn apply(entities: &mut Vec<BackupEntity>, attribution: Attribution)
    requires
        attribution.moved matches Some(relocation) ==> relocation.location < old(entities).len(),
        attribution.changed matches Some(location) ==> location < old(entities).len(),
    ensures
        views(final(entities)@) == applied(views(old(entities)@), attribution),
{
    let Attribution { moved, changed } = attribution;
    match moved {
        Some(relocation) => {
            let ghost step = views(entities@);
            entities[relocation.location].relocate(relocation.path);
            assert(views(entities@) =~= step.update(
                relocation.location as int,
                step[relocation.location as int].moved(relocation.path@, relocation.path.text@),
            ));
        },
        None => {},
    }
    match changed {
        Some(location) => {
            let ghost step = views(entities@);
            entities[location].note_change();
            assert(views(entities@) =~= step.update(
                location as int,
                step[location as int].noted(),
            ));
        },
        None => {},
    }
}

/// The registry: the watched locations, each at a place that never changes,
/// and the index from their paths to their places.
pub struct Backuper {
    entities: Vec<BackupEntity>,
    table: LookupTable,
}

impl View for Backuper {
    type V = Seq<EntityView>;

    closed spec fn view(&self) -> Seq<EntityView> {
        views(self.entities@)
    }
}

impl Backuper {
    #[verifier::type_invariant]
    spec fn agrees(&self) -> bool {
        indexes(self.table@, views(self.entities@))
    }

    /// The index from watched paths to places in the registry.
    pub closed spec fn index(&self) -> Map<Seq<Seq<char>>, Slot> {
        self.table@
    }

    /// A registry of these locations, in this order, with its index.
    pub fn new(entities: Vec<BackupEntity>) -> (backuper: Self)
        ensures
            backuper@ == views(entities@),
            backuper.index() == index_of(views(entities@)),
            indexes(backuper.index(), backuper@),
    {
        let table = LookupTable::build(&entities);
        Backuper { entities, table }
    }

    /// The number of locations.
    pub fn len(&self) -> (n: usize)
        ensures
            n == self@.len(),
    {
        self.entities.len()
    }

    /// Whether nothing is registered.
    pub fn is_empty(&self) -> (empty: bool)
        ensures
            empty == (self@.len() == 0),
    {
        self.entities.len() == 0
    }

    /// The location at place `location`.
    pub fn get(&self, location: usize) -> (entity: &BackupEntity)
        requires
            location < self@.len(),
        ensures
            entity@ == self@[location as int],
    {
        &self.entities[location]
    }

    /// The place of the location that is registered under exactly `path`.
    pub fn lookup(&self, path: &WatchPath) -> (location: Option<usize>)
        ensures
            location == match lookup(self.index(), path@) {
                Some(slot) => Some(slot.location),
                None => None,
            },
            location matches Some(at) ==> at < self@.len() && self@[at as int].path == path@,
    {
        proof {
            use_type_invariant(self);
        }
        match self.table.get(path) {
            Some(slot) => {
                assert(self.table@.dom().contains(path@));
                Some(slot.location)
            },
            None => None,
        }
    }

    /// Hands out the locations and the index, for a caller that guards each
    /// location on its own.
    pub fn into_parts(self) -> (parts: (Vec<BackupEntity>, LookupTable))
        ensures
            views(parts.0@) == self@,
            parts.1@ == self.index(),
            indexes(parts.1@, views(parts.0@)),
    {
        proof {
            use_type_invariant(&self);
        }
        (self.entities, self.table)
    }

    /// What to do at startup: nothing where no location is registered,
    /// else subscribe to every indexed path with its recursion mode.
    pub fn start(&self) -> (plan: Startup)
        ensures
            self@.len() == 0 <==> plan is Idle,
            plan matches Startup::Watch { watches } ==> lists(watches@, self.index()),
    {
        if self.entities.len() == 0 {
            Startup::Idle
        } else {
            Startup::Watch { watches: self.table.watch_list() }
        }
    }

    /// The rename alone: moves the index entry of `from` to `to` and gives
    /// the location its new path. The location's counter and the time of its
    /// last run stay as they are, and so does every other location. Returns
    /// the place of the location that moved.
    pub fn rename(&mut self, from: &WatchPath, to: &WatchPath) -> (moved: Option<usize>)
        ensures
            final(self).index() == renamed(old(self).index(), from@, to@),
            indexes(final(self).index(), final(self)@),
            match lookup(old(self).index(), from@) {
                Some(slot) => {
                    &&& moved == Some(slot.location)
                    &&& slot.location < old(self)@.len()
                    &&& final(self)@ == old(self)@.update(
                        slot.location as int,
                        old(self)@[slot.location as int].moved(to@, to.text@),
                    )
                },
                None => moved is None && final(self)@ == old(self)@,
            },
    {
        proof {
            use_type_invariant(&*self);
        }
        let ghost before = self@;
        let ghost index = self.index();
        let mut table = LookupTable::new();
        std::mem::swap(&mut self.table, &mut table);
        let mut entities: Vec<BackupEntity> = Vec::new();
        std::mem::swap(&mut self.entities, &mut entities);
        let moved = table.rename(from, to);
        match moved {
            Some(location) => {
                proof {
                    assert(index.dom().contains(from@));
                    lemma_rename_keeps_agreement(index, before, from@, to@, to.text@);
                }
                entities[location].relocate(to.clone());
                assert(views(entities@) =~= before.update(
                    location as int,
                    before[location as int].moved(to@, to.text@),
                ));
            },
            None => {},
        }
        std::mem::swap(&mut self.entities, &mut entities);
        std::mem::swap(&mut self.table, &mut table);
        moved
    }

    /// The watcher's step. A rename moves the index entry of the old path to
    /// the new path and gives the location its new path; its counter and the
    /// time of its last run stay. Then the event, unless it is `Rescan` or
    /// `Error`, is counted as one change by the location that takes its path,
    /// and by no other.
    pub fn observe(&mut self, event: &FsEvent)
        ensures
            final(self).index() == table_after(old(self).index(), *event),
            final(self)@ == observed(old(self)@, old(self).index(), *event),
            indexes(final(self).index(), final(self)@),
    {
        proof {
            use_type_invariant(&*self);
        }
        let ghost before = self@;
        let ghost index = self.index();
        let mut table = LookupTable::new();
        std::mem::swap(&mut self.table, &mut table);
        let mut entities: Vec<BackupEntity> = Vec::new();
        std::mem::swap(&mut self.entities, &mut entities);
        let attribution = table.handle(event);
        proof {
            lemma_observe(before, index, *event);
            assert(applied(before, attribution) == observed(before, index, *event));
        }
        apply(&mut entities, attribution);
        std::mem::swap(&mut self.entities, &mut entities);
        std::mem::swap(&mut self.table, &mut table);
    }

    /// The evaluator's step: the first location from place `from` on whose
    /// action is due at `now`.
    pub fn next_due(&self, from: usize, now: u64) -> (due: Option<usize>)
        ensures
            match due {
                Some(location) => {
                    &&& from <= location < self@.len()
                    &&& self@[location as int].need_backup(now)
                    &&& forall|k: int| from <= k < location ==> !(#[trigger] self@[k]).need_backup(now)
                },
                None => forall|k: int|
                    from <= k < self@.len() ==> !(#[trigger] self@[k]).need_backup(now),
            },
    {
        let mut at: usize = from;
        while at < self.entities.len()
            invariant
                from <= at,
                forall|k: int|
                    from <= k < at && k < self@.len() ==> !(#[trigger] self@[k]).need_backup(now),
            decreases self.entities.len() - at,
        {
            if self.entities[at].need_backup(now) {
                return Some(at);
            }
            at += 1;
        }
        None
    }

    /// The executor's last step, after the command of the location at
    /// `location` was run: reports the run and opens the location's new
    /// trigger window at `now`, however the run ended. No other location and
    /// no index entry changes.
    pub fn complete(&mut self, location: usize, outcome: ExecOutcome, global: &Global, now: u64) -> (result:
        Result<Report, BackupError>)
        requires
            location < old(self)@.len(),
        ensures
            final(self)@ == old(self)@.update(
                location as int,
                old(self)@[location as int].settled(now),
            ),
            final(self).index() == old(self).index(),
            indexes(final(self).index(), final(self)@),
            reported(old(self)@[location as int], outcome, *global, result),
    {
        proof {
            use_type_invariant(&*self);
        }
        let ghost before = self@;
        let mut entities: Vec<BackupEntity> = Vec::new();
        let mut table = LookupTable::new();
        std::mem::swap(&mut self.table, &mut table);
        std::mem::swap(&mut self.entities, &mut entities);
        let result = entities[location].backup(outcome, global, now);
        assert(views(entities@) =~= before.update(
            location as int,
            before[location as int].settled(now),
        ));
        std::mem::swap(&mut self.entities, &mut entities);
        std::mem::swap(&mut self.table, &mut table);
        result
    }
}

/// What the watcher's step does keeps the index and the registry in
/// agreement, and it touches only places that the registry has.
pub proof fn lemma_observe(entities: Seq<EntityView>, table: Map<Seq<Seq<char>>, Slot>, event: FsEvent)
    requires
        indexes(table, entities),
    ensures
        indexes(table_after(table, event), observed(entities, table, event)),
        indexes(table_after(table, event), relocated(entities, table, event)),
        observed(entities, table, event).len() == entities.len(),
        moved_by(table, event) matches Some(location) ==> location < entities.len(),
        counted_by(table, event) matches Some(location) ==> location < entities.len(),
{
    let after = table_after(table, event);
    let moved = relocated(entities, table, event);
    match event {
        FsEvent::Rename(from, to) => {
            if table.dom().contains(from@) {
                lemma_rename_keeps_agreement(table, entities, from@, to@, to.text@);
            }
        },
        _ => {},
    }
    assert(indexes(after, moved));
    match event.spec_changed_path() {
        Some(path) => {
            lemma_resolved_is_longest_match(after, path@);
            match resolved(after, path@) {
                Some(location) => {
                    let key = choose|key: Seq<Seq<char>>|
                        wins(after, key, path@) && after[key].location == location;
                    assert(after.dom().contains(key));
                },
                None => {},
            }
        },
        None => {},
    }
}

/// After any run of a location's action, however it ended, the location has
/// seen no change since and its last run is the time of the settlement.
pub proof fn lemma_settled_window(entity: EntityView, now: u64)
    ensures
        entity.settled(now).changed == 0,
        entity.settled(now).last_triggered == now,
        entity.settled(now).path == entity.path,
        entity.settled(now).trigger_changes == entity.trigger_changes,
        entity.settled(now).trigger_timer == entity.trigger_timer,
{
}

/// The counter after `count` more changes: it grows by one with each change
/// and stops at the largest value it can hold. Nothing else changes.
pub proof fn lemma_noted_times(entity: EntityView, count: nat)
    ensures
        entity.noted_times(count) == (EntityView {
            changed: if entity.changed + count <= u64::MAX {
                (entity.changed + count) as u64
            } else {
                u64::MAX
            },
            ..entity
        }),
    decreases count,
{
    if count > 0 {
        lemma_noted_times(entity, (count - 1) as nat);
    }
}

/// With the change threshold in use and the timer not, a location is due
/// exactly when its counter has reached the threshold; and after a run it is
/// due again exactly when as many changes as the threshold were seen since.
pub proof fn lemma_count_trigger(entity: EntityView, threshold: u64, settled_at: u64, count: nat, now: u64)
    requires
        entity.trigger_timer is None,
        entity.trigger_changes == Some(threshold),
        threshold > 0,
    ensures
        entity.need_backup(now) <==> entity.changed >= threshold,
        entity.settled(settled_at).noted_times(count).need_backup(now) <==> count >= threshold,
{
    lemma_noted_times(entity.settled(settled_at), count);
}

/// With the timer in use and the change threshold not, a location is due
/// exactly when as many minutes as the timer says have passed since its last
/// run, whatever its counter holds.
pub proof fn lemma_time_trigger(entity: EntityView, minutes: u64, now: u64)
    requires
        entity.trigger_changes is None,
        entity.trigger_timer == Some(minutes),
        minutes > 0,
        now >= entity.last_triggered,
    ensures
        entity.need_backup(now) <==> now - entity.last_triggered >= 60 * minutes,
{
}

/// A rename of a registered path moves the index entry to the new path,
/// where it points at the same place, and the record at that place has the
/// new path. The rename loses nothing: the time of the last run is as before,
/// and the counter is as before but for the one change that the rename itself
/// counts as.
pub proof fn lemma_rename_keeps_record(
    entities: Seq<EntityView>,
    table: Map<Seq<Seq<char>>, Slot>,
    from: WatchPath,
    to: WatchPath,
)
    requires
        indexes(table, entities),
        table.dom().contains(from@),
    ensures
        ({
            let event = FsEvent::Rename(from, to);
            let place = table[from@].location as int;
            let before = entities[place];
            let moved = relocated(entities, table, event)[place];
            let after = observed(entities, table, event)[place];
            &&& lookup(table_after(table, event), to@) == Some(table[from@])
            &&& from@ != to@ ==> !table_after(table, event).dom().contains(from@)
            &&& moved == before.moved(to@, to.text@)
            &&& moved.changed == before.changed
            &&& moved.last_triggered == before.last_triggered
            &&& counted_by(table, event) == Some(table[from@].location)
            &&& after == before.moved(to@, to.text@).noted()
            &&& after.last_triggered == before.last_triggered
            &&& after.changed >= before.changed
        }),
{
    let event = FsEvent::Rename(from, to);
    let after = table_after(table, event);
    assert(after.dom().contains(to@));
    assert(to@.subrange(0, to@.len() as int) =~= to@);
    assert(covers(to@, after[to@].recursive, to@));
    assert(resolved_from(after, to@, to@.len()) == Some(after[to@].location));
}

/// An event is counted by one location at most: every other record is as it
/// was before the event, but for the path of a location that the event moved.
pub proof fn lemma_counted_once(
    entities: Seq<EntityView>,
    table: Map<Seq<Seq<char>>, Slot>,
    event: FsEvent,
    place: int,
)
    requires
        indexes(table, entities),
        0 <= place < entities.len(),
        counted_by(table, event) != Some(place as usize),
    ensures
        observed(entities, table, event)[place] == relocated(entities, table, event)[place],
        observed(entities, table, event)[place].changed == entities[place].changed,
        observed(entities, table, event)[place].last_triggered == entities[place].last_triggered,
{
    lemma_observe(entities, table, event);
}

} // verus!
