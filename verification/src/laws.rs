//! What holds of a store over several operations.
//!
//! The laws speak of the models of the operations, [`DBView::spec_get`],
//! [`DBView::spec_set`], [`DBView::spec_close`] and [`DBView::spec_remove`],
//! which the operations themselves are proved to follow.
use crate::db::{
    lemma_position, lemma_push_wf, lemma_remove_wf, lemma_with_slot_wf, spec_live_keys,
    spec_valid_key, DBView, HandleView, SlotView,
};
use crate::error::{Error, ImagedStatus};
use crate::image::{lemma_file_round_trip, spec_file, ImageView, Ownership};
use crate::iter::{lemma_iteration_yields_keys, spec_yields};
use crate::lock::LockState;
use vstd::prelude::*;

verus! {

/// What stands under a key once an image was set there and the handle was
/// closed: the file of the image, unlocked.
pub proof fn lemma_set_then_close(db: DBView, key: Seq<char>, image: ImageView)
    requires
        db.wf(),
        image.wf(),
        db.spec_set(key, image).1 is Ok,
    ensures
        ({
            let (locked, handle) = db.spec_set(key, image);
            let (closed, r) = locked.spec_close(handle->Ok_0);
            &&& locked.wf()
            &&& r is Ok
            &&& closed.wf()
            &&& closed.spec_has(key)
            &&& closed.spec_slot(key) == (SlotView {
                name: key,
                content: Some(spec_file(image.meta, image.data)),
                lock: LockState::Unlocked,
            })
            &&& closed.slots.len() == if db.spec_has(key) {
                db.slots.len()
            } else {
                db.slots.len() + 1
            }
            &&& forall|other: Seq<char>|
                other != key ==> (#[trigger] closed.spec_has(other) == db.spec_has(other)) && (
                db.spec_has(other) ==> closed.spec_slot(other) == db.spec_slot(other))
        }),
{
    let (locked, handle) = db.spec_set(key, image);
    let slot = SlotView {
        name: key,
        content: Some(spec_file(image.meta, image.data)),
        lock: LockState::ExclusiveLocked,
    };
    let i = if db.spec_has(key) {
        db.spec_position(key)
    } else {
        db.slots.len() as int
    };
    if db.spec_has(key) {
        lemma_with_slot_wf(db, i, slot);
    } else {
        lemma_push_wf(db, slot);
    }
    assert(locked.slots[i] == slot);
    lemma_position(locked, key, i);
    let (closed, r) = locked.spec_close(handle->Ok_0);
    let open = SlotView { lock: LockState::Unlocked, ..slot };
    lemma_with_slot_wf(locked, i, open);
    assert(closed.slots[i] == open);
    lemma_position(closed, key, i);
    assert forall|other: Seq<char>| other != key implies (#[trigger] closed.spec_has(other)
        == db.spec_has(other)) && (db.spec_has(other) ==> closed.spec_slot(other)
        == db.spec_slot(other)) by {
        if db.spec_has(other) {
            let k = db.spec_position(other);
            assert(closed.slots[k] == db.slots[k]);
            lemma_position(closed, other, k);
        }
        if closed.spec_has(other) {
            let k = closed.spec_position(other);
            assert(k != i);
            assert(db.slots[k].name == other);
        }
    }
}

/// Round trip: an image that was set under a key, with the handle closed
/// again, is what the next handle for the key holds: the same metadata and
/// the same bytes.
pub proof fn lemma_round_trip(db: DBView, key: Seq<char>, image: ImageView, editable: bool)
    requires
        db.wf(),
        image.wf(),
        db.spec_set(key, image).1 is Ok,
    ensures
        ({
            let (locked, handle) = db.spec_set(key, image);
            let (closed, r) = locked.spec_close(handle->Ok_0);
            let (again, found) = closed.spec_get(key, editable);
            &&& r is Ok
            &&& found is Ok
            &&& found->Ok_0.image.meta == image.meta
            &&& found->Ok_0.image.data == image.data
        }),
{
    lemma_set_then_close(db, key, image);
    lemma_file_round_trip(image, Ownership::StoreMapped);
}

/// Lock exclusion: while an editable handle for a key is open, no second
/// handle for that key can be had, editable or not, and the try leaves the
/// store as it is. Once the first handle is closed, whatever was done to
/// its image, a handle can be had again.
pub proof fn lemma_lock_exclusion(
    db: DBView,
    key: Seq<char>,
    second: bool,
    edited: ImageView,
    third: bool,
)
    requires
        db.wf(),
        db.spec_get(key, true).1 is Ok,
        edited.wf(),
    ensures
        ({
            let (locked, first) = db.spec_get(key, true);
            let (closed, r) = locked.spec_close(HandleView { image: edited, ..first->Ok_0 });
            &&& locked.spec_get(key, second) == (
                locked,
                Err::<HandleView, Error>(Error::Sys(ImagedStatus::IMAGED_ERR_LOCKED)),
            )
            &&& r is Ok
            &&& closed.spec_get(key, third).1 is Ok
        }),
{
    let i = db.spec_position(key);
    let slot = db.spec_slot(key);
    let (locked, first) = db.spec_get(key, true);
    assert(slot.lock.wf());
    lemma_with_slot_wf(db, i, SlotView { lock: LockState::ExclusiveLocked, ..slot });
    lemma_position(locked, key, i);
    let handle = HandleView { image: edited, ..first->Ok_0 };
    let (closed, r) = locked.spec_close(handle);
    let after = SlotView {
        name: key,
        content: Some(spec_file(edited.meta, edited.data)),
        lock: LockState::Unlocked,
    };
    lemma_with_slot_wf(locked, i, after);
    assert(closed.slots[i] == after);
    lemma_position(closed, key, i);
    lemma_file_round_trip(edited, Ownership::StoreMapped);
}

/// The keys of the entries of a store are names of its nodes.
pub proof fn lemma_keys_are_names(slots: Seq<SlotView>, key: Seq<char>)
    requires
        spec_live_keys(slots).contains(key),
    ensures
        exists|i: int| 0 <= i < slots.len() && (#[trigger] slots[i]).name == key && slots[i].spec_live(),
    decreases slots.len(),
{
    if slots.len() > 0 {
        let front = slots.drop_last();
        let keys = spec_live_keys(slots);
        let j = choose|j: int| 0 <= j < keys.len() && keys[j] == key;
        if slots.last().spec_live() && j == keys.len() - 1 {
            assert(slots[slots.len() - 1].name == key);
        } else {
            assert(spec_live_keys(front)[j] == key);
            lemma_keys_are_names(front, key);
            let i = choose|i: int|
                0 <= i < front.len() && (#[trigger] front[i]).name == key && front[i].spec_live();
            assert(slots[i] == front[i]);
        }
    }
}

/// Every entry of a store has its key among the keys of the store.
pub proof fn lemma_names_are_keys(slots: Seq<SlotView>, i: int)
    requires
        0 <= i < slots.len(),
        slots[i].spec_live(),
    ensures
        spec_live_keys(slots).contains(slots[i].name),
    decreases slots.len(),
{
    let front = slots.drop_last();
    let keys = spec_live_keys(slots);
    if i == slots.len() - 1 {
        assert(keys.last() == slots[i].name);
    } else {
        lemma_names_are_keys(front, i);
        let j = choose|j: int|
            0 <= j < spec_live_keys(front).len() && spec_live_keys(front)[j] == front[i].name;
        assert(keys[j] == slots[i].name);
    }
}

/// Deletion: once a key is removed, no handle can be had for it, because
/// its file does not exist, and a cursor over the store does not yield it.
pub proof fn lemma_deletion(db: DBView, key: Seq<char>, editable: bool)
    requires
        db.wf(),
        db.spec_remove(key).1 is Ok,
    ensures
        ({
            let (after, r) = db.spec_remove(key);
            &&& after.wf()
            &&& !after.spec_has(key)
            &&& after.spec_get(key, editable) == (
                after,
                Err::<HandleView, Error>(
                    Error::Sys(ImagedStatus::IMAGED_ERR_FILE_DOES_NOT_EXIST),
                ),
            )
            &&& !spec_yields(after.slots, 0).contains(key)
        }),
{
    let i = db.spec_position(key);
    let (after, r) = db.spec_remove(key);
    lemma_remove_wf(db, i);
    if after.spec_has(key) {
        let k = after.spec_position(key);
        let k0 = if k < i {
            k
        } else {
            k + 1
        };
        assert(db.slots[k0].name == key);
        lemma_position(db, key, k0);
    }
    lemma_iteration_yields_keys(after);
    if spec_live_keys(after.slots).contains(key) {
        lemma_keys_are_names(after.slots, key);
    }
}

/// The store after an image was set under a key and the handle was closed
/// again.
pub open spec fn spec_put(db: DBView, key: Seq<char>, image: ImageView) -> DBView {
    let (locked, handle) = db.spec_set(key, image);
    match handle {
        Ok(handle) => locked.spec_close(handle).0,
        Err(_) => locked,
    }
}

/// The store after images were put under keys, one after the other.
pub open spec fn spec_put_all(db: DBView, keys: Seq<Seq<char>>, images: Seq<ImageView>) -> DBView
    decreases keys.len(),
{
    if keys.len() == 0 {
        db
    } else {
        spec_put(
            spec_put_all(db, keys.drop_last(), images.drop_last()),
            keys.last(),
            images.last(),
        )
    }
}

/// The store after keys were removed, one after the other.
pub open spec fn spec_remove_all(db: DBView, keys: Seq<Seq<char>>) -> DBView
    decreases keys.len(),
{
    if keys.len() == 0 {
        db
    } else {
        spec_remove_all(db, keys.drop_last()).spec_remove(keys.last()).0
    }
}

/// Every node is an unlocked entry, there are `count` of them, and the
/// names of the nodes are the keys that `wanted` holds and `gone` does not.
pub open spec fn spec_holds(
    db: DBView,
    wanted: Seq<Seq<char>>,
    gone: Seq<Seq<char>>,
    count: int,
) -> bool {
    &&& db.wf()
    &&& db.slots.len() == count
    &&& forall|i: int|
        0 <= i < db.slots.len() ==> (#[trigger] db.slots[i]).spec_live()
            && !db.slots[i].lock.spec_is_locked()
    &&& forall|key: Seq<char>| #[trigger]
        db.spec_has(key) <==> wanted.contains(key) && !gone.contains(key)
}

/// After images were put under distinct keys into an empty store, the
/// store holds just these keys.
pub proof fn lemma_put_all(db: DBView, keys: Seq<Seq<char>>, images: Seq<ImageView>)
    requires
        db.wf(),
        db.slots.len() == 0,
        keys.len() == images.len(),
        keys.no_duplicates(),
        forall|i: int| 0 <= i < keys.len() ==> spec_valid_key(#[trigger] keys[i]),
        forall|i: int| 0 <= i < images.len() ==> (#[trigger] images[i]).wf(),
    ensures
        spec_holds(spec_put_all(db, keys, images), keys, Seq::empty(), keys.len() as int),
    decreases keys.len(),
{
    let none = Seq::<Seq<char>>::empty();
    if keys.len() == 0 {
        assert forall|key: Seq<char>| #[trigger]
            db.spec_has(key) <==> keys.contains(key) && !none.contains(key) by {}
    } else {
        let front = keys.drop_last();
        let before = spec_put_all(db, front, images.drop_last());
        let key = keys.last();
        let image = images.last();
        lemma_put_all(db, front, images.drop_last());
        assert(!front.contains(key)) by {
            if front.contains(key) {
                let j = choose|j: int| 0 <= j < front.len() && front[j] == key;
                assert(keys[j] == keys[keys.len() - 1]);
            }
        }
        assert(!before.spec_has(key));
        lemma_set_then_close(before, key, image);
        lemma_file_round_trip(image, Ownership::StoreMapped);
        let after = spec_put_all(db, keys, images);
        assert(after == spec_put(before, key, image));
        let last = before.slots.len() as int;
        assert(after.slots =~= before.slots.push(after.slots[last]));
        lemma_position(after, key, last);
        assert forall|i: int| 0 <= i < after.slots.len() implies (
        #[trigger] after.slots[i]).spec_live() && !after.slots[i].lock.spec_is_locked() by {
            if i < last {
                assert(before.slots[i].spec_live());
            }
        }
        assert forall|other: Seq<char>| #[trigger]
            after.spec_has(other) <==> keys.contains(other) && !none.contains(other) by {
            if other == key {
                assert(keys[keys.len() - 1] == key);
            } else {
                assert(after.spec_has(other) == before.spec_has(other));
                if front.contains(other) {
                    let j = choose|j: int| 0 <= j < front.len() && front[j] == other;
                    assert(keys[j] == other);
                }
                if keys.contains(other) {
                    let j = choose|j: int| 0 <= j < keys.len() && keys[j] == other;
                    assert(front[j] == other);
                }
            }
        }
    }
}

/// After distinct keys that a store holds were removed, the store holds
/// the other keys, and one node fewer for each key removed.
pub proof fn lemma_remove_all(
    db: DBView,
    keys: Seq<Seq<char>>,
    removed: Seq<Seq<char>>,
    count: int,
)
    requires
        spec_holds(db, keys, Seq::empty(), count),
        removed.no_duplicates(),
        forall|i: int| 0 <= i < removed.len() ==> keys.contains(#[trigger] removed[i]),
    ensures
        spec_holds(spec_remove_all(db, removed), keys, removed, count - removed.len()),
    decreases removed.len(),
{
    if removed.len() == 0 {
        assert forall|key: Seq<char>| #[trigger]
            db.spec_has(key) <==> keys.contains(key) && !removed.contains(key) by {
            assert(!Seq::<Seq<char>>::empty().contains(key));
        }
    } else {
        let front = removed.drop_last();
        let key = removed.last();
        let before = spec_remove_all(db, front);
        lemma_remove_all(db, keys, front, count);
        assert(keys.contains(key)) by {
            assert(removed[removed.len() - 1] == key);
        }
        assert(!front.contains(key)) by {
            if front.contains(key) {
                let j = choose|j: int| 0 <= j < front.len() && front[j] == key;
                assert(removed[j] == removed[removed.len() - 1]);
            }
        }
        assert(before.spec_has(key));
        let i = before.spec_position(key);
        assert(before.slots[i].spec_live() && !before.slots[i].lock.spec_is_locked());
        let after = before.spec_remove(key).0;
        assert(after == spec_remove_all(db, removed));
        assert(after.slots == before.slots.remove(i));
        lemma_remove_wf(before, i);
        assert forall|k: int| 0 <= k < after.slots.len() implies (
        #[trigger] after.slots[k]).spec_live() && !after.slots[k].lock.spec_is_locked() by {
            let k0 = if k < i {
                k
            } else {
                k + 1
            };
            assert(before.slots[k0].spec_live());
        }
        assert forall|other: Seq<char>| #[trigger]
            after.spec_has(other) <==> keys.contains(other) && !removed.contains(other) by {
            if after.spec_has(other) {
                let k = after.spec_position(other);
                let k0 = if k < i {
                    k
                } else {
                    k + 1
                };
                assert(before.slots[k0].name == other);
                lemma_position(before, other, k0);
                assert(other != key);
                if removed.contains(other) {
                    let j = choose|j: int| 0 <= j < removed.len() && removed[j] == other;
                    assert(front[j] == other);
                }
            }
            if keys.contains(other) && !removed.contains(other) {
                assert(other != key) by {
                    assert(removed[removed.len() - 1] == key);
                }
                if front.contains(other) {
                    let j = choose|j: int| 0 <= j < front.len() && front[j] == other;
                    assert(removed[j] == other);
                }
                assert(before.spec_has(other));
                let k0 = before.spec_position(other);
                let k = if k0 < i {
                    k0
                } else {
                    k0 - 1
                };
                assert(after.slots[k].name == other);
            }
        }
    }
}

/// Where every node is an entry, the keys of the entries are the names of
/// the nodes, one for one.
pub proof fn lemma_all_live(slots: Seq<SlotView>)
    requires
        forall|i: int| 0 <= i < slots.len() ==> (#[trigger] slots[i]).spec_live(),
    ensures
        spec_live_keys(slots) == slots.map_values(|s: SlotView| s.name),
    decreases slots.len(),
{
    if slots.len() > 0 {
        let front = slots.drop_last();
        assert forall|i: int| 0 <= i < front.len() implies (#[trigger] front[i]).spec_live() by {
            assert(slots[i].spec_live());
        }
        lemma_all_live(front);
        assert(slots[slots.len() - 1].spec_live());
    }
    assert(spec_live_keys(slots) =~= slots.map_values(|s: SlotView| s.name));
}

/// Iteration completeness: after images were put under `keys.len()`
/// distinct keys into an empty store and `removed.len()` of these keys were
/// removed again, a fresh cursor yields as many keys as there were put less
/// those removed, no key twice, and just the keys that were put and not
/// removed. Under each of them the store has an entry.
pub proof fn lemma_iteration_completeness(
    db: DBView,
    keys: Seq<Seq<char>>,
    images: Seq<ImageView>,
    removed: Seq<Seq<char>>,
)
    requires
        db.wf(),
        db.slots.len() == 0,
        keys.len() == images.len(),
        keys.no_duplicates(),
        forall|i: int| 0 <= i < keys.len() ==> spec_valid_key(#[trigger] keys[i]),
        forall|i: int| 0 <= i < images.len() ==> (#[trigger] images[i]).wf(),
        removed.no_duplicates(),
        forall|i: int| 0 <= i < removed.len() ==> keys.contains(#[trigger] removed[i]),
    ensures
        ({
            let end = spec_remove_all(spec_put_all(db, keys, images), removed);
            let yielded = spec_yields(end.slots, 0);
            &&& end.wf()
            &&& yielded.len() == keys.len() - removed.len()
            &&& yielded.no_duplicates()
            &&& forall|key: Seq<char>| #[trigger]
                yielded.contains(key) <==> keys.contains(key) && !removed.contains(key)
            &&& forall|key: Seq<char>| #[trigger] yielded.contains(key) ==> end.spec_has_entry(key)
        }),
{
    let full = spec_put_all(db, keys, images);
    let end = spec_remove_all(full, removed);
    let yielded = spec_yields(end.slots, 0);
    lemma_put_all(db, keys, images);
    lemma_remove_all(full, keys, removed, keys.len() as int);
    lemma_iteration_yields_keys(end);
    lemma_all_live(end.slots);
    assert forall|a: int, b: int| 0 <= a < yielded.len() && 0 <= b < yielded.len() && a
        != b implies yielded[a] != yielded[b] by {
        if a < b {
            assert(end.slots[a].name != end.slots[b].name);
        } else {
            assert(end.slots[b].name != end.slots[a].name);
        }
    }
    assert forall|key: Seq<char>| #[trigger] yielded.contains(key) <==> end.spec_has(key) by {
        if yielded.contains(key) {
            let j = choose|j: int| 0 <= j < yielded.len() && yielded[j] == key;
            assert(end.slots[j].name == key);
        }
        if end.spec_has(key) {
            let j = end.spec_position(key);
            assert(yielded[j] == key);
        }
    }
    assert forall|key: Seq<char>| #[trigger] yielded.contains(key) implies end.spec_has_entry(
        key,
    ) by {
        assert(end.spec_has(key));
        assert(end.slots[end.spec_position(key)].spec_live());
    }
}

} // verus!
