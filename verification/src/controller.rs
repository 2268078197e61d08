//! The controller: UI mode, edit buffer, cursor, and the state machine
//! that maps one key press to one board operation or mode change.

use vstd::prelude::*;

verus! {

use crate::board::{Board, clamp_index, empty_board};
use crate::codec::{spec_encode, spec_decode, tasks_to_chars, content_to_task};

/// The two mutually exclusive UI modes: cursor navigation, or text
/// entry for a new task.
#[derive(Debug, Clone, Copy, PartialEq, Eq, Structural)]
pub enum AppState {
    Normal,
    CreateTask,
}

impl Default for AppState {
    fn default() -> (r: Self)
        ensures
            r == AppState::Normal,
    {
        AppState::Normal
    }
}

/// One discrete key press, as the controller understands it. A
/// printable character carries one byte; every key the controller does
/// not bind falls under `Other` and is ignored.
#[derive(Debug, Clone, Copy, PartialEq, Eq, Structural)]
pub enum Key {
    Char(u8),
    Left,
    Right,
    Up,
    Down,
    Enter,
    Backspace,
    Esc,
    Other,
}

/// The whole controller state as mathematical values: the lanes' task
/// texts, the mode, the exit flag, the edit buffer, and the cursor.
#[verifier::ext_equal]
pub ghost struct Model {
    pub lanes: Seq<Seq<Seq<u8>>>,
    pub mode: AppState,
    pub exit: bool,
    pub buffer: Seq<u8>,
    pub cursor_lane: int,
    pub cursor_task: int,
}

impl Model {
    /// Well-formedness: three lanes, the cursor on one of them, and
    /// the task index valid for that lane — 0 as the sentinel on an
    /// empty lane, within bounds otherwise.
    pub open spec fn wf(self) -> bool {
        &&& self.lanes.len() == 3
        &&& 0 <= self.cursor_lane < 3
        &&& if self.lanes[self.cursor_lane].len() == 0 {
            self.cursor_task == 0
        } else {
            0 <= self.cursor_task < self.lanes[self.cursor_lane].len()
        }
    }
}

/// The state a run starts from: empty board, Normal mode, cursor at
/// the origin.
pub open spec fn init_model() -> Model {
    Model {
        lanes: empty_board(),
        mode: AppState::Normal,
        exit: false,
        buffer: Seq::empty(),
        cursor_lane: 0,
        cursor_task: 0,
    }
}

pub open spec fn spec_exit(m: Model) -> Model {
    Model { exit: true, ..m }
}

pub open spec fn spec_create_task(m: Model) -> Model {
    Model { mode: AppState::CreateTask, ..m }
}

pub open spec fn spec_write_char(m: Model, input: u8) -> Model {
    Model { buffer: m.buffer.push(input), ..m }
}

pub open spec fn spec_delete_char(m: Model) -> Model {
    if m.buffer.len() == 0 {
        m
    } else {
        Model { buffer: m.buffer.drop_last(), ..m }
    }
}

pub open spec fn spec_cancel_popup(m: Model) -> Model {
    Model { buffer: Seq::empty(), mode: AppState::Normal, ..m }
}

pub open spec fn spec_move_left(m: Model) -> Model {
    if m.cursor_lane > 0 {
        let l = m.cursor_lane - 1;
        Model { cursor_lane: l, cursor_task: clamp_index(m.lanes[l].len() as int, m.cursor_task), ..m }
    } else {
        m
    }
}

pub open spec fn spec_move_right(m: Model) -> Model {
    if m.cursor_lane < 2 {
        let l = m.cursor_lane + 1;
        Model { cursor_lane: l, cursor_task: clamp_index(m.lanes[l].len() as int, m.cursor_task), ..m }
    } else {
        m
    }
}

pub open spec fn spec_move_up(m: Model) -> Model {
    if m.cursor_task > 0 {
        Model { cursor_task: m.cursor_task - 1, ..m }
    } else {
        m
    }
}

pub open spec fn spec_move_down(m: Model) -> Model {
    if m.lanes[m.cursor_lane].len() > 0 && m.cursor_task < m.lanes[m.cursor_lane].len() - 1 {
        Model { cursor_task: m.cursor_task + 1, ..m }
    } else {
        m
    }
}

/// Deleting (`new_state` of `None`) or reassigning the task under the
/// cursor. Nothing happens on an empty lane or when the target lane is
/// the current one. Otherwise the task leaves its lane, the task index
/// drops by one whenever it was above 0 — unconditionally, whether or
/// not the removed task sat above the cursor — and on a reassignment
/// the task is appended to the target lane.
pub open spec fn spec_update_task_state(m: Model, new_state: Option<usize>) -> Model {
    let same = match new_state {
        Some(l) => l as int == m.cursor_lane,
        None => false,
    };
    if m.lanes[m.cursor_lane].len() == 0 || same {
        m
    } else {
        let t = m.lanes[m.cursor_lane][m.cursor_task];
        let removed = m.lanes.update(m.cursor_lane, m.lanes[m.cursor_lane].remove(m.cursor_task));
        let lanes2 = match new_state {
            Some(l) => removed.update(l as int, removed[l as int].push(t)),
            None => removed,
        };
        let ct = if m.cursor_task > 0 {
            m.cursor_task - 1
        } else {
            0
        };
        Model { lanes: lanes2, cursor_task: ct, ..m }
    }
}

/// Submitting the edit buffer: a non-empty buffer becomes a new task
/// in lane 0 and is emptied; an empty buffer creates nothing. Either
/// way the mode returns to Normal.
pub open spec fn spec_submit_task(m: Model) -> Model {
    if m.buffer.len() > 0 {
        Model {
            lanes: m.lanes.update(0, m.lanes[0].push(m.buffer)),
            buffer: Seq::empty(),
            mode: AppState::Normal,
            ..m
        }
    } else {
        Model { mode: AppState::Normal, ..m }
    }
}

/// The character `q`: quit.
pub const KEY_QUIT: u8 = 113;
/// The character `n`: open the new-task popup.
pub const KEY_NEW: u8 = 110;
/// The character `d`: delete the task under the cursor.
pub const KEY_DELETE: u8 = 100;
/// The character `h`: move the cursor one lane left.
pub const KEY_LEFT: u8 = 104;
/// The character `l`: move the cursor one lane right.
pub const KEY_RIGHT: u8 = 108;
/// The character `k`: move the cursor up within the lane.
pub const KEY_UP: u8 = 107;
/// The character `j`: move the cursor down within the lane.
pub const KEY_DOWN: u8 = 106;
/// The character `1`: send the task under the cursor to lane 0.
pub const KEY_LANE_0: u8 = 49;
/// The character `2`: send the task under the cursor to lane 1.
pub const KEY_LANE_1: u8 = 50;
/// The character `3`: send the task under the cursor to lane 2.
pub const KEY_LANE_2: u8 = 51;

/// The full transition relation: what one key press does to the state,
/// in either mode. Unbound keys change nothing.
pub open spec fn step(m: Model, key: Key) -> Model {
    match m.mode {
        AppState::Normal => match key {
            Key::Char(c) => if c == KEY_QUIT {
                spec_exit(m)
            } else if c == KEY_NEW {
                spec_create_task(m)
            } else if c == KEY_DELETE {
                spec_update_task_state(m, None)
            } else if c == KEY_LEFT {
                spec_move_left(m)
            } else if c == KEY_RIGHT {
                spec_move_right(m)
            } else if c == KEY_UP {
                spec_move_up(m)
            } else if c == KEY_DOWN {
                spec_move_down(m)
            } else if c == KEY_LANE_0 {
                spec_update_task_state(m, Some(0usize))
            } else if c == KEY_LANE_1 {
                spec_update_task_state(m, Some(1usize))
            } else if c == KEY_LANE_2 {
                spec_update_task_state(m, Some(2usize))
            } else {
                m
            },
            Key::Left => spec_move_left(m),
            Key::Right => spec_move_right(m),
            Key::Up => spec_move_up(m),
            Key::Down => spec_move_down(m),
            _ => m,
        },
        AppState::CreateTask => match key {
            Key::Char(c) => spec_write_char(m, c),
            Key::Backspace => spec_delete_char(m),
            Key::Enter => spec_submit_task(m),
            Key::Esc => spec_cancel_popup(m),
            _ => m,
        },
    }
}

/// One key press never breaks well-formedness: the board keeps its
/// three lanes and the cursor stays valid for the lane it is on.
pub proof fn lemma_step_preserves_wf(m: Model, key: Key)
    requires
        m.wf(),
    ensures
        step(m, key).wf(),
{
}

/// The state after a whole sequence of key presses, first press first.
pub open spec fn run_keys(m: Model, keys: Seq<Key>) -> Model
    decreases keys.len(),
{
    if keys.len() == 0 {
        m
    } else {
        run_keys(step(m, keys[0]), keys.drop_first())
    }
}

/// No sequence of key presses ever breaks well-formedness: after any
/// run the board still has exactly three lanes, and the cursor's task
/// index is valid for its lane — 0 on an empty lane, in bounds
/// otherwise.
pub proof fn lemma_run_keys_preserves_wf(m: Model, keys: Seq<Key>)
    requires
        m.wf(),
    ensures
        run_keys(m, keys).wf(),
    decreases keys.len(),
{
    if keys.len() > 0 {
        lemma_step_preserves_wf(m, keys[0]);
        lemma_run_keys_preserves_wf(step(m, keys[0]), keys.drop_first());
    }
}

/// Submitting with an empty edit buffer is inert: no task appears
/// anywhere, the buffer stays empty, and the mode returns to Normal.
pub proof fn lemma_empty_submit_inert(m: Model)
    requires
        m.mode == AppState::CreateTask,
        m.buffer.len() == 0,
    ensures
        step(m, Key::Enter).lanes == m.lanes,
        step(m, Key::Enter).mode == AppState::Normal,
        step(m, Key::Enter).buffer.len() == 0,
{
}

/// The running application: the board it owns, the UI mode, the exit
/// flag, the live edit buffer, and the cursor as `(lane, task)`.
#[derive(Debug)]
pub struct App {
    pub board: Board,
    pub state: AppState,
    pub exit: bool,
    pub buffer: Vec<u8>,
    pub cursor_pos: (usize, usize),
}

impl View for App {
    type V = Model;

    open spec fn view(&self) -> Model {
        Model {
            lanes: self.board@,
            mode: self.state,
            exit: self.exit,
            buffer: self.buffer@,
            cursor_lane: self.cursor_pos.0 as int,
            cursor_task: self.cursor_pos.1 as int,
        }
    }
}

impl App {
    pub open spec fn wf(&self) -> bool {
        self@.wf()
    }

    /// The starting state: empty board, Normal mode, cursor at the
    /// origin.
    pub fn default() -> (app: App)
        ensures
            app.wf(),
            app@ == init_model(),
    {
        let app = App {
            board: Board::new(),
            state: AppState::Normal,
            exit: false,
            buffer: Vec::new(),
            cursor_pos: (0, 0),
        };
        proof {
            assert(app@ =~~= init_model());
        }
        app
    }

    /// The state a run resumes from: the saved bytes decoded, the rest
    /// as at a fresh start.
    pub fn from_bytes(content: &Vec<u8>) -> (app: App)
        ensures
            app.wf(),
            app@ == (Model { lanes: spec_decode(content@), ..init_model() }),
    {
        let lanes = content_to_task(content);
        let app = App {
            board: Board { lanes },
            state: AppState::Normal,
            exit: false,
            buffer: Vec::new(),
            cursor_pos: (0, 0),
        };
        proof {
            assert(app@ =~~= Model { lanes: spec_decode(content@), ..init_model() });
        }
        app
    }

    /// The board in its saved form.
    pub fn tasks_to_chars(&self) -> (r: Vec<u8>)
        ensures
            r@ == spec_encode(self@.lanes),
    {
        tasks_to_chars(&self.board.lanes)
    }

    /// Raises the exit flag; the run loop stops after the current
    /// frame.
    pub fn exit(&mut self)
        ensures
            final(self)@ == spec_exit(old(self)@),
    {
        self.exit = true;
    }

    /// Opens the new-task popup. The edit buffer keeps whatever it
    /// held.
    pub fn create_task(&mut self)
        ensures
            final(self)@ == spec_create_task(old(self)@),
    {
        self.state = AppState::CreateTask;
    }

    /// Appends one character to the edit buffer.
    pub fn write_char_to_buffer(&mut self, input: u8)
        ensures
            final(self)@ == spec_write_char(old(self)@, input),
    {
        self.buffer.push(input);
    }

    /// Drops the last character of the edit buffer, if any.
    pub fn delete_char_from_buffer(&mut self)
        ensures
            final(self)@ == spec_delete_char(old(self)@),
    {
        let _ = self.buffer.pop();
    }

    /// Closes the popup and discards the edit buffer.
    pub fn cancel_popup(&mut self)
        ensures
            final(self)@ == spec_cancel_popup(old(self)@),
    {
        self.buffer = Vec::new();
        self.state = AppState::Normal;
    }

    /// Re-validates the task index for lane `new_pos`, which must be
    /// the lane the cursor stands on; used after the active lane
    /// changes.
    pub fn correct_cursor(&mut self, new_pos: usize)
        requires
            old(self)@.lanes.len() == 3,
            new_pos < 3,
            new_pos as int == old(self)@.cursor_lane,
        ensures
            final(self)@ == (Model {
                cursor_task: clamp_index(
                    old(self)@.lanes[new_pos as int].len() as int,
                    old(self)@.cursor_task,
                ),
                ..old(self)@
            }),
    {
        let len = self.board.lanes[new_pos].len();
        if len == 0 {
            self.cursor_pos = (self.cursor_pos.0, 0);
        } else if len - 1 < self.cursor_pos.1 {
            self.cursor_pos = (self.cursor_pos.0, len - 1);
        }
    }

    /// Moves the cursor one lane to the left, re-validating the task
    /// index for the new lane.
    pub fn move_left(&mut self)
        requires
            old(self).wf(),
        ensures
            final(self).wf(),
            final(self)@ == spec_move_left(old(self)@),
    {
        if self.cursor_pos.0 > 0 {
            let new_pos = self.cursor_pos.0 - 1;
            self.cursor_pos = (new_pos, self.cursor_pos.1);
            self.correct_cursor(new_pos);
        }
    }

    /// Moves the cursor one lane to the right, re-validating the task
    /// index for the new lane.
    pub fn move_right(&mut self)
        requires
            old(self).wf(),
        ensures
            final(self).wf(),
            final(self)@ == spec_move_right(old(self)@),
    {
        if self.cursor_pos.0 < 2 {
            let new_pos = self.cursor_pos.0 + 1;
            self.cursor_pos = (new_pos, self.cursor_pos.1);
            self.correct_cursor(new_pos);
        }
    }

    /// Moves the cursor one task up within the lane.
    pub fn move_up(&mut self)
        requires
            old(self).wf(),
        ensures
            final(self).wf(),
            final(self)@ == spec_move_up(old(self)@),
    {
        if self.cursor_pos.1 > 0 {
            self.cursor_pos = (self.cursor_pos.0, self.cursor_pos.1 - 1);
        }
    }

    /// Moves the cursor one task down within the lane.
    pub fn move_down(&mut self)
        requires
            old(self).wf(),
        ensures
            final(self).wf(),
            final(self)@ == spec_move_down(old(self)@),
    {
        let lane_len = self.board.lanes[self.cursor_pos.0].len();
        if lane_len > 0 && self.cursor_pos.1 < lane_len - 1 {
            self.cursor_pos = (self.cursor_pos.0, self.cursor_pos.1 + 1);
        }
    }

    /// Deletes (`None`) or reassigns (`Some(lane)`) the task under the
    /// cursor; see `spec_update_task_state` for the exact rule.
    pub fn update_task_state(&mut self, new_state: Option<usize>)
        requires
            old(self).wf(),
            new_state matches Some(l) ==> l < 3,
        ensures
            final(self).wf(),
            final(self)@ == spec_update_task_state(old(self)@, new_state),
    {
        if self.board.lanes[self.cursor_pos.0].is_empty() {
            return;
        }
        match new_state {
            None => {
                let _ = self.board.remove_at(self.cursor_pos.0, self.cursor_pos.1);
            },
            Some(l) => {
                if l == self.cursor_pos.0 {
                    return;
                }
                self.board.move_task(self.cursor_pos.0, self.cursor_pos.1, l);
            },
        }
        if self.cursor_pos.1 > 0 {
            self.cursor_pos = (self.cursor_pos.0, self.cursor_pos.1 - 1);
        }
        proof {
            assert(self@ =~~= spec_update_task_state(old(self)@, new_state));
        }
    }

    /// Submits the edit buffer; see `spec_submit_task` for the exact
    /// rule.
    pub fn submit_task(&mut self)
        requires
            old(self).wf(),
        ensures
            final(self).wf(),
            final(self)@ == spec_submit_task(old(self)@),
    {
        if !self.buffer.is_empty() {
            let text = crate::codec::copy_bytes(&self.buffer);
            self.board.add_task(text);
            self.buffer = Vec::new();
        }
        self.state = AppState::Normal;
        proof {
            assert(self@ =~~= spec_submit_task(old(self)@));
        }
    }

    /// Dispatches one key press: the whole state machine, both modes.
    pub fn handle_key_event(&mut self, key: Key)
        requires
            old(self).wf(),
        ensures
            final(self).wf(),
            final(self)@ == step(old(self)@, key),
    {
        match self.state {
            AppState::Normal => match key {
                Key::Char(c) => if c == KEY_QUIT {
                    self.exit();
                } else if c == KEY_NEW {
                    self.create_task();
                } else if c == KEY_DELETE {
                    self.update_task_state(None);
                } else if c == KEY_LEFT {
                    self.move_left();
                } else if c == KEY_RIGHT {
                    self.move_right();
                } else if c == KEY_UP {
                    self.move_up();
                } else if c == KEY_DOWN {
                    self.move_down();
                } else if c == KEY_LANE_0 {
                    self.update_task_state(Some(0));
                } else if c == KEY_LANE_1 {
                    self.update_task_state(Some(1));
                } else if c == KEY_LANE_2 {
                    self.update_task_state(Some(2));
                },
                Key::Left => self.move_left(),
                Key::Right => self.move_right(),
                Key::Up => self.move_up(),
                Key::Down => self.move_down(),
                _ => {},
            },
            AppState::CreateTask => match key {
                Key::Char(c) => self.write_char_to_buffer(c),
                Key::Backspace => self.delete_char_from_buffer(),
                Key::Enter => self.submit_task(),
                Key::Esc => self.cancel_popup(),
                _ => {},
            },
        }
    }
}

} // verus!

