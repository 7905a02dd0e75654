//! One watch: what is watched, and how often each kind of event hit it.

use vstd::prelude::*;
use crate::event::{
    overlaps, EventMask, ACCESS, ATTRIB, CLOSE_NOWRITE, CLOSE_WRITE, CREATE, DELETE, DELETE_SELF,
    MODIFY, MOVED_FROM, MOVED_TO, MOVE_SELF, OPEN, UNMOUNT,
};
use crate::kinds::{
    added, bumped, kind_bit, lemma_kinds_listed, lemma_selected_bounded, selected_total,
    selected_upto, tally_after, tally_has_room, tally_within, KINDS,
};

verus! {

/// A watch of the event source on one path.
#[derive(Debug, Clone)]
pub struct Watch {
    /// The identifier that the event source gave the watch.
    pub wd: i32,
    pub path: String,
    /// Whether the path was a directory when the watch was made.
    pub is_directory: bool,
    pub hit_access: u64,
    pub hit_modify: u64,
    pub hit_attrib: u64,
    pub hit_close_write: u64,
    pub hit_close_nowrite: u64,
    pub hit_open: u64,
    pub hit_moved_from: u64,
    pub hit_moved_to: u64,
    pub hit_create: u64,
    pub hit_delete: u64,
    pub hit_delete_self: u64,
    pub hit_move_self: u64,
    pub hit_unmount: u64,
    /// The events that hit the watch, each counted once.
    pub hit_total: u64,
}

/// `counter`, and one more where `on` holds.
pub open spec fn counted(counter: u64, on: bool) -> u64 {
    if on {
        (counter + 1) as u64
    } else {
        counter
    }
}

impl Watch {
    /// The watch with one more event of the kinds `mask` counted.
    pub open spec fn hit(self, mask: u32) -> Watch {
        Watch {
            wd: self.wd,
            path: self.path,
            is_directory: self.is_directory,
            hit_access: counted(self.hit_access, overlaps(mask, ACCESS)),
            hit_modify: counted(self.hit_modify, overlaps(mask, MODIFY)),
            hit_attrib: counted(self.hit_attrib, overlaps(mask, ATTRIB)),
            hit_close_write: counted(self.hit_close_write, overlaps(mask, CLOSE_WRITE)),
            hit_close_nowrite: counted(self.hit_close_nowrite, overlaps(mask, CLOSE_NOWRITE)),
            hit_open: counted(self.hit_open, overlaps(mask, OPEN)),
            hit_moved_from: counted(self.hit_moved_from, overlaps(mask, MOVED_FROM)),
            hit_moved_to: counted(self.hit_moved_to, overlaps(mask, MOVED_TO)),
            hit_create: counted(self.hit_create, overlaps(mask, CREATE)),
            hit_delete: counted(self.hit_delete, overlaps(mask, DELETE)),
            hit_delete_self: counted(self.hit_delete_self, overlaps(mask, DELETE_SELF)),
            hit_move_self: counted(self.hit_move_self, overlaps(mask, MOVE_SELF)),
            hit_unmount: counted(self.hit_unmount, overlaps(mask, UNMOUNT)),
            hit_total: (self.hit_total + 1) as u64,
        }
    }

    /// The counters by kind, in canonical order.
    pub open spec fn hits(&self) -> Seq<nat> {
        seq![
            self.hit_access as nat,
            self.hit_modify as nat,
            self.hit_attrib as nat,
            self.hit_close_write as nat,
            self.hit_close_nowrite as nat,
            self.hit_open as nat,
            self.hit_moved_from as nat,
            self.hit_moved_to as nat,
            self.hit_create as nat,
            self.hit_delete as nat,
            self.hit_delete_self as nat,
            self.hit_move_self as nat,
            self.hit_unmount as nat,
        ]
    }

    /// No kind was counted more often than there were events.
    pub open spec fn wf(&self) -> bool {
        tally_within(self.hits(), self.hit_total as nat)
    }

    /// Whether one more event with the kinds `mask` can be counted.
    pub open spec fn has_room(&self, mask: u32) -> bool {
        self.hit_total < u64::MAX && tally_has_room(self.hits(), mask)
    }

    /// The watch with the identifier `wd` on `path` that no event has hit
    /// yet.
    pub open spec fn fresh(wd: i32, path: String, is_directory: bool) -> Watch {
        Watch {
            wd,
            path,
            is_directory,
            hit_access: 0,
            hit_modify: 0,
            hit_attrib: 0,
            hit_close_write: 0,
            hit_close_nowrite: 0,
            hit_open: 0,
            hit_moved_from: 0,
            hit_moved_to: 0,
            hit_create: 0,
            hit_delete: 0,
            hit_delete_self: 0,
            hit_move_self: 0,
            hit_unmount: 0,
            hit_total: 0,
        }
    }

    /// A fresh watch has counted nothing.
    pub proof fn lemma_fresh(wd: i32, path: String, is_directory: bool)
        ensures
            Self::fresh(wd, path, is_directory).hits() == Seq::new(KINDS as nat, |k: int| 0nat),
            Self::fresh(wd, path, is_directory).wf(),
    {
        assert(Self::fresh(wd, path, is_directory).hits() =~= Seq::new(
            KINDS as nat,
            |k: int| 0nat,
        ));
    }

    /// A watch that no event has hit yet.
    pub fn new(wd: i32, path: String, is_directory: bool) -> (r: Self)
        ensures
            r == Self::fresh(wd, path, is_directory),
            r.wd == wd,
            r.path == path,
            r.is_directory == is_directory,
            r.hits() == Seq::new(KINDS as nat, |k: int| 0nat),
            r.hit_total == 0,
            r.wf(),
    {
        let r = Watch {
            wd,
            path,
            is_directory,
            hit_access: 0,
            hit_modify: 0,
            hit_attrib: 0,
            hit_close_write: 0,
            hit_close_nowrite: 0,
            hit_open: 0,
            hit_moved_from: 0,
            hit_moved_to: 0,
            hit_create: 0,
            hit_delete: 0,
            hit_delete_self: 0,
            hit_move_self: 0,
            hit_unmount: 0,
            hit_total: 0,
        };
        assert(r.hits() =~= Seq::new(KINDS as nat, |k: int| 0nat));
        r
    }

    /// A hit adds one to the counter of each kind of the event, and to the
    /// total.
    pub proof fn lemma_hit(self, mask: u32)
        requires
            self.has_room(mask),
        ensures
            self.hit(mask).hits() == tally_after(self.hits(), mask),
            self.hit(mask).hit_total == self.hit_total + 1,
            self.wf() ==> self.hit(mask).wf(),
    {
        lemma_kinds_listed();
        let tally = self.hits();
        assert(forall|k: int|
            0 <= k < KINDS && overlaps(mask, kind_bit(k)) ==> #[trigger] tally[k] < u64::MAX);
        assert(self.hit(mask).hits() =~= tally_after(self.hits(), mask));
    }

    /// Counts one event with the kinds `event_mask`: once for each of its
    /// kinds, and once in the total.
    pub fn record_event(&mut self, event_mask: EventMask)
        requires
            old(self).has_room(event_mask@),
        ensures
            *final(self) == old(self).hit(event_mask@),
            final(self).hits() == tally_after(old(self).hits(), event_mask@),
            final(self).hit_total == old(self).hit_total + 1,
            old(self).wf() ==> final(self).wf(),
    {
        let mask = event_mask;
        proof {
            lemma_kinds_listed();
            self.lemma_hit(event_mask@);
            let tally = self.hits();
            assert(forall|k: int|
                0 <= k < KINDS && overlaps(event_mask@, kind_bit(k)) ==> #[trigger] tally[k]
                    < u64::MAX);
            assert(tally[0] == self.hit_access && tally[1] == self.hit_modify && tally[2]
                == self.hit_attrib && tally[3] == self.hit_close_write && tally[4]
                == self.hit_close_nowrite && tally[5] == self.hit_open && tally[6]
                == self.hit_moved_from && tally[7] == self.hit_moved_to && tally[8]
                == self.hit_create && tally[9] == self.hit_delete && tally[10]
                == self.hit_delete_self && tally[11] == self.hit_move_self && tally[12]
                == self.hit_unmount);
        }
        self.hit_access = bumped(self.hit_access, mask.contains(EventMask(ACCESS)));
        self.hit_modify = bumped(self.hit_modify, mask.contains(EventMask(MODIFY)));
        self.hit_attrib = bumped(self.hit_attrib, mask.contains(EventMask(ATTRIB)));
        self.hit_close_write = bumped(self.hit_close_write, mask.contains(EventMask(CLOSE_WRITE)));
        self.hit_close_nowrite = bumped(self.hit_close_nowrite, mask.contains(EventMask(CLOSE_NOWRITE)));
        self.hit_open = bumped(self.hit_open, mask.contains(EventMask(OPEN)));
        self.hit_moved_from = bumped(self.hit_moved_from, mask.contains(EventMask(MOVED_FROM)));
        self.hit_moved_to = bumped(self.hit_moved_to, mask.contains(EventMask(MOVED_TO)));
        self.hit_create = bumped(self.hit_create, mask.contains(EventMask(CREATE)));
        self.hit_delete = bumped(self.hit_delete, mask.contains(EventMask(DELETE)));
        self.hit_delete_self = bumped(self.hit_delete_self, mask.contains(EventMask(DELETE_SELF)));
        self.hit_move_self = bumped(self.hit_move_self, mask.contains(EventMask(MOVE_SELF)));
        self.hit_unmount = bumped(self.hit_unmount, mask.contains(EventMask(UNMOUNT)));
        self.hit_total += 1;
    }

    /// How often the kinds of `event_mask` hit the watch, all told.
    pub fn get_hit_count(&self, event_mask: EventMask) -> (r: u64)
        requires
            selected_total(self.hits(), event_mask@) <= u64::MAX,
        ensures
            r == selected_total(self.hits(), event_mask@),
    {
        let mask = event_mask;
        let mut count: u64 = 0;
        let ghost tally = self.hits();
        proof {
            lemma_kinds_listed();
        }
        assert(count == selected_upto(tally, event_mask@, 0));
        proof {
            lemma_selected_bounded(tally, event_mask@, 1);
        }
        count = added(count, self.hit_access, mask.contains(EventMask(ACCESS)));
        assert(count == selected_upto(tally, event_mask@, 1));
        proof {
            lemma_selected_bounded(tally, event_mask@, 2);
        }
        count = added(count, self.hit_modify, mask.contains(EventMask(MODIFY)));
        assert(count == selected_upto(tally, event_mask@, 2));
        proof {
            lemma_selected_bounded(tally, event_mask@, 3);
        }
        count = added(count, self.hit_attrib, mask.contains(EventMask(ATTRIB)));
        assert(count == selected_upto(tally, event_mask@, 3));
        proof {
            lemma_selected_bounded(tally, event_mask@, 4);
        }
        count = added(count, self.hit_close_write, mask.contains(EventMask(CLOSE_WRITE)));
        assert(count == selected_upto(tally, event_mask@, 4));
        proof {
            lemma_selected_bounded(tally, event_mask@, 5);
        }
        count = added(count, self.hit_close_nowrite, mask.contains(EventMask(CLOSE_NOWRITE)));
        assert(count == selected_upto(tally, event_mask@, 5));
        proof {
            lemma_selected_bounded(tally, event_mask@, 6);
        }
        count = added(count, self.hit_open, mask.contains(EventMask(OPEN)));
        assert(count == selected_upto(tally, event_mask@, 6));
        proof {
            lemma_selected_bounded(tally, event_mask@, 7);
        }
        count = added(count, self.hit_moved_from, mask.contains(EventMask(MOVED_FROM)));
        assert(count == selected_upto(tally, event_mask@, 7));
        proof {
            lemma_selected_bounded(tally, event_mask@, 8);
        }
        count = added(count, self.hit_moved_to, mask.contains(EventMask(MOVED_TO)));
        assert(count == selected_upto(tally, event_mask@, 8));
        proof {
            lemma_selected_bounded(tally, event_mask@, 9);
        }
        count = added(count, self.hit_create, mask.contains(EventMask(CREATE)));
        assert(count == selected_upto(tally, event_mask@, 9));
        proof {
            lemma_selected_bounded(tally, event_mask@, 10);
        }
        count = added(count, self.hit_delete, mask.contains(EventMask(DELETE)));
        assert(count == selected_upto(tally, event_mask@, 10));
        proof {
            lemma_selected_bounded(tally, event_mask@, 11);
        }
        count = added(count, self.hit_delete_self, mask.contains(EventMask(DELETE_SELF)));
        assert(count == selected_upto(tally, event_mask@, 11));
        proof {
            lemma_selected_bounded(tally, event_mask@, 12);
        }
        count = added(count, self.hit_move_self, mask.contains(EventMask(MOVE_SELF)));
        assert(count == selected_upto(tally, event_mask@, 12));
        proof {
            lemma_selected_bounded(tally, event_mask@, 13);
        }
        count = added(count, self.hit_unmount, mask.contains(EventMask(UNMOUNT)));
        assert(count == selected_upto(tally, event_mask@, 13));
        count
    }

    /// Forgets every hit.
    pub fn reset_stats(&mut self)
        ensures
            final(self).hits() == Seq::new(KINDS as nat, |k: int| 0nat),
            final(self).hit_total == 0,
            final(self).wd == old(self).wd,
            final(self).path == old(self).path,
            final(self).is_directory == old(self).is_directory,
            final(self).wf(),
    {
        self.hit_access = 0;
        self.hit_modify = 0;
        self.hit_attrib = 0;
        self.hit_close_write = 0;
        self.hit_close_nowrite = 0;
        self.hit_open = 0;
        self.hit_moved_from = 0;
        self.hit_moved_to = 0;
        self.hit_create = 0;
        self.hit_delete = 0;
        self.hit_delete_self = 0;
        self.hit_move_self = 0;
        self.hit_unmount = 0;
        self.hit_total = 0;
        assert(self.hits() =~= Seq::new(KINDS as nat, |k: int| 0nat));
    }
}

} // verus!
