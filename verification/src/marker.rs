//! Markers: numbered points in time of a wave form view, each shown by a displayed item.
use crate::displayed_item::{DisplayedItemRef, DisplayedMarker};
use std::collections::HashMap;
use vstd::prelude::*;

verus! {

broadcast use vstd::std_specs::hash::group_hash_axioms;

/// How many markers a view can hold.
pub const MAX_MARKERS: usize = 255;

/// The largest index of a marker.
pub const MAX_MARKER_INDEX: u8 = 254;

/// The markers of a wave form view, and what they need of the rest of the view: the
/// displayed items that show them, the key counter that gives new items their keys, and the
/// cursor. Times are the decimal texts of integers.
pub struct WaveData {
    /// The time of each marker, by its index.
    pub markers: HashMap<u8, String>,
    /// The displayed items that show markers, with their keys, in the order they were added.
    pub marker_items: Vec<(DisplayedItemRef, DisplayedMarker)>,
    /// The key of the displayed item added last; the next one gets the key after it.
    pub display_item_ref_counter: usize,
    /// The time at the cursor, once it has been placed.
    pub cursor: Option<String>,
}

/// The position of the first item of `items` that shows the marker `idx`; the number of
/// items when there is none.
pub open spec fn first_marker_item(items: Seq<(DisplayedItemRef, DisplayedMarker)>, idx: u8) -> int
    decreases items.len(),
{
    if items.len() == 0 {
        0
    } else if items[0].1.idx == idx {
        0
    } else {
        1 + first_marker_item(items.drop_first(), idx)
    }
}

proof fn lemma_first_marker_item(items: Seq<(DisplayedItemRef, DisplayedMarker)>, idx: u8, k: int)
    requires
        0 <= k <= items.len(),
        forall|j: int| 0 <= j < k ==> (#[trigger] items[j]).1.idx != idx,
        k == items.len() || items[k].1.idx == idx,
    ensures
        first_marker_item(items, idx) == k,
    decreases items.len(),
{
    if items.len() > 0 && k > 0 {
        assert forall|j: int| 0 <= j < k - 1 implies (#[trigger] items.drop_first()[j]).1.idx
            != idx by {
            assert(items.drop_first()[j] == items[j + 1]);
        }
        lemma_first_marker_item(items.drop_first(), idx, k - 1);
    }
}

/// The displayed item of a new marker `idx`, without name or colors.
pub open spec fn new_marker_item(idx: u8) -> DisplayedMarker {
    DisplayedMarker { color: None, background_color: None, name: None, idx }
}

/// `after` is `before` with marker `idx` set to `location`: the marker takes the time, a
/// marker that did not exist yet gets a displayed item with the next key, and the cursor stays.
pub open spec fn marker_set(before: WaveData, after: WaveData, idx: u8, location: String) -> bool {
    &&& after.markers@ == before.markers@.insert(idx, location)
    &&& after.cursor == before.cursor
    &&& if before.markers@.contains_key(idx) {
        &&& after.marker_items@ == before.marker_items@
        &&& after.display_item_ref_counter == before.display_item_ref_counter
    } else {
        &&& after.display_item_ref_counter == before.display_item_ref_counter + 1
        &&& after.marker_items@ == before.marker_items@.push(
            (DisplayedItemRef(after.display_item_ref_counter), new_marker_item(idx)),
        )
    }
}

impl WaveData {
    /// Whether another marker can be added.
    pub fn can_add_marker(&self) -> (res: bool)
        ensures
            res == (self.markers@.len() < MAX_MARKERS),
    {
        self.markers.len() < MAX_MARKERS
    }

    /// Removes the displayed item of marker `idx`, and with it the marker; nothing happens
    /// when no item shows that marker.
    pub fn remove_marker(&mut self, idx: u8)
        ensures
            ({
                let pos = first_marker_item(old(self).marker_items@, idx);
                if pos < old(self).marker_items@.len() {
                    &&& final(self).marker_items@ == old(self).marker_items@.remove(pos)
                    &&& final(self).markers@ == old(self).markers@.remove(idx)
                } else {
                    &&& final(self).marker_items@ == old(self).marker_items@
                    &&& final(self).markers@ == old(self).markers@
                }
            }),
            final(self).display_item_ref_counter == old(self).display_item_ref_counter,
            final(self).cursor == old(self).cursor,
    {
        let mut k: usize = 0;
        while k < self.marker_items.len()
            invariant
                k <= self.marker_items@.len(),
                *self == *old(self),
                forall|j: int| 0 <= j < k ==> (#[trigger] self.marker_items@[j]).1.idx != idx,
            decreases self.marker_items@.len() - k,
        {
            if self.marker_items[k].1.idx == idx {
                proof {
                    lemma_first_marker_item(self.marker_items@, idx, k as int);
                }
                self.marker_items.remove(k);
                self.markers.remove(&idx);
                return;
            }
            k = k + 1;
        }
        proof {
            lemma_first_marker_item(self.marker_items@, idx, k as int);
        }
    }

    /// Sets marker `idx` to `location`; a marker that does not exist yet is created, with a
    /// displayed item that gets the next key.
    pub fn set_marker_position(&mut self, idx: u8, location: String)
        requires
            !old(self).markers@.contains_key(idx) ==> old(self).display_item_ref_counter
                < usize::MAX,
        ensures
            marker_set(*old(self), *final(self), idx, location),
    {
        if !self.markers.contains_key(&idx) {
            self.display_item_ref_counter = self.display_item_ref_counter + 1;
            let item = DisplayedItemRef(self.display_item_ref_counter);
            self.marker_items.push(
                (item, DisplayedMarker { color: None, background_color: None, name: None, idx }),
            );
        }
        self.markers.insert(idx, location);
    }

    /// Moves marker `idx` to the cursor, creating it when it does not exist yet; nothing
    /// happens while the cursor has not been placed.
    pub fn move_marker_to_cursor(&mut self, idx: u8)
        requires
            old(self).cursor is Some && !old(self).markers@.contains_key(idx) ==> old(
                self,
            ).display_item_ref_counter < usize::MAX,
        ensures
            match old(self).cursor {
                None => *final(self) == *old(self),
                Some(location) => marker_set(*old(self), *final(self), idx, location),
            },
    {
        match &self.cursor {
            Some(location) => {
                let location = location.clone();
                self.set_marker_position(idx, location);
            },
            None => {},
        }
    }
}

} // verus!
