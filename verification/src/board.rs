//! The board model: three fixed lanes of tasks, each task a byte string.

use vstd::prelude::*;

verus! {

/// One entry on the board. Its only attribute is its text,
/// stored one byte per character.
#[derive(Debug, Clone)]
pub struct Task {
    pub content: Vec<u8>,
}

impl View for Task {
    type V = Seq<u8>;

    open spec fn view(&self) -> Seq<u8> {
        self.content@
    }
}

/// The texts of one lane, in lane order.
pub open spec fn lane_texts(lane: Seq<Task>) -> Seq<Seq<u8>> {
    lane.map_values(|t: Task| t@)
}

/// The texts of every lane of a board, lane by lane.
pub open spec fn board_texts(lanes: Seq<Vec<Task>>) -> Seq<Seq<Seq<u8>>> {
    lanes.map_values(|lane: Vec<Task>| lane_texts(lane@))
}

/// Three empty lanes.
pub open spec fn empty_board() -> Seq<Seq<Seq<u8>>> {
    seq![Seq::<Seq<u8>>::empty(), Seq::<Seq<u8>>::empty(), Seq::<Seq<u8>>::empty()]
}

/// The board: exactly three lanes. Lane 0 collects new tasks; a task
/// moves between lanes only as a whole.
#[derive(Debug)]
pub struct Board {
    pub lanes: Vec<Vec<Task>>,
}

impl View for Board {
    type V = Seq<Seq<Seq<u8>>>;

    open spec fn view(&self) -> Seq<Seq<Seq<u8>>> {
        board_texts(self.lanes@)
    }
}

impl Board {
    /// A board is well formed when it has exactly three lanes.
    pub open spec fn wf(&self) -> bool {
        self.lanes@.len() == 3
    }

    /// A fresh board: three empty lanes.
    pub fn new() -> (b: Board)
        ensures
            b.wf(),
            b@ == empty_board(),
    {
        let mut lanes: Vec<Vec<Task>> = Vec::new();
        lanes.push(Vec::new());
        lanes.push(Vec::new());
        lanes.push(Vec::new());
        let b = Board { lanes };
        proof {
            assert(b@ =~~= empty_board());
        }
        b
    }

    /// Appends a task with the given text to lane 0, unconditionally.
    /// Rejecting empty text is the caller's duty, not the board's.
    pub fn add_task(&mut self, text: Vec<u8>)
        requires
            old(self).wf(),
        ensures
            final(self).wf(),
            final(self)@ == old(self)@.update(0, old(self)@[0].push(text@)),
    {
        let ghost pre = self.lanes@;
        let ghost t = text@;
        let mut lane = self.lanes.remove(0);
        lane.push(Task { content: text });
        self.lanes.insert(0, lane);
        proof {
            assert(self.lanes@ =~~= pre.update(0, self.lanes@[0]));
            assert(lane_texts(self.lanes@[0]@) =~~= board_texts(pre)[0].push(t));
            assert(self@ =~~= board_texts(pre).update(0, board_texts(pre)[0].push(t)));
        }
    }

    /// Removes and returns the task at `index` in `lane`. On an empty
    /// lane this is a no-op that returns nothing: the board tolerates
    /// the degenerate case without failing, while valid indices are the
    /// caller's duty.
    pub fn remove_at(&mut self, lane: usize, index: usize) -> (r: Option<Task>)
        requires
            old(self).wf(),
            lane < 3,
            old(self)@[lane as int].len() > 0 ==> index < old(self)@[lane as int].len(),
        ensures
            final(self).wf(),
            old(self)@[lane as int].len() == 0 ==> r is None && final(self)@ == old(self)@,
            old(self)@[lane as int].len() > 0 ==> (r matches Some(t)
                && t@ == old(self)@[lane as int][index as int]
                && final(self)@ == old(self)@.update(lane as int,
                    old(self)@[lane as int].remove(index as int))),
    {
        let ghost pre = self.lanes@;
        if self.lanes[lane].is_empty() {
            return None;
        }
        let mut l = self.lanes.remove(lane);
        let t = l.remove(index);
        self.lanes.insert(lane, l);
        proof {
            assert(self.lanes@ =~~= pre.update(lane as int, self.lanes@[lane as int]));
            assert(lane_texts(self.lanes@[lane as int]@) =~~=
                board_texts(pre)[lane as int].remove(index as int));
            assert(self@ =~~= board_texts(pre).update(lane as int,
                board_texts(pre)[lane as int].remove(index as int)));
        }
        Some(t)
    }

    /// Moves the task at `(from, index)` to the end of lane `to`.
    /// Moving within one lane is a no-op, so an already placed task is
    /// never re-appended; so is moving out of an empty lane.
    pub fn move_task(&mut self, from: usize, index: usize, to: usize)
        requires
            old(self).wf(),
            from < 3,
            to < 3,
            from != to && old(self)@[from as int].len() > 0
                ==> index < old(self)@[from as int].len(),
        ensures
            final(self).wf(),
            from == to ==> final(self)@ == old(self)@,
            from != to && old(self)@[from as int].len() == 0
                ==> final(self)@ == old(self)@,
            from != to && old(self)@[from as int].len() > 0 ==> final(self)@ ==
                old(self)@
                    .update(from as int, old(self)@[from as int].remove(index as int))
                    .update(to as int, old(self)@[to as int]
                        .push(old(self)@[from as int][index as int])),
    {
        if from == to {
            return;
        }
        let ghost pre = self@;
        let removed = self.remove_at(from, index);
        match removed {
            None => {},
            Some(t) => {
                let ghost mid = self@;
                let mut dst = self.lanes.remove(to);
                dst.push(t);
                self.lanes.insert(to, dst);
                proof {
                    assert(self.lanes@.map_values(|l: Vec<Task>| lane_texts(l@)) =~~=
                        mid.update(to as int, mid[to as int].push(t@)));
                    assert(self@ =~~= pre
                        .update(from as int, pre[from as int].remove(index as int))
                        .update(to as int, pre[to as int]
                            .push(pre[from as int][index as int])));
                }
            },
        }
    }

    /// The corrected task index for `lane`: 0 on an empty lane, else
    /// the given index clamped to the lane's last position.
    pub fn clamp_cursor_for_lane(&self, lane: usize, cursor: usize) -> (r: usize)
        requires
            self.wf(),
            lane < 3,
        ensures
            r as int == clamp_index(self@[lane as int].len() as int, cursor as int),
    {
        let len = self.lanes[lane].len();
        if len == 0 {
            0
        } else if cursor > len - 1 {
            len - 1
        } else {
            cursor
        }
    }
}

/// The cursor correction rule: an empty lane pins the index to 0, any
/// other clamps it to the lane's last position.
pub open spec fn clamp_index(len: int, cursor: int) -> int {
    if len == 0 {
        0
    } else if cursor >= len {
        len - 1
    } else {
        cursor
    }
}

} // verus!
