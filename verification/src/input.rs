use vstd::prelude::*;
use vstd::string::StringSliceAdditionalSpecFns;

verus! {

/// The symbolic keys the script bridge can name.
#[derive(Clone, Copy, Debug, PartialEq, Eq, Structural)]
pub enum Key {
    Up,
    Down,
    Left,
    Right,
}

/// One boolean of state per key.
#[derive(Clone, Copy, Debug, PartialEq, Eq, Structural)]
struct KeyFlags {
    up: bool,
    down: bool,
    left: bool,
    right: bool,
}

impl KeyFlags {
    spec fn flag(self, k: Key) -> bool {
        match k {
            Key::Up => self.up,
            Key::Down => self.down,
            Key::Left => self.left,
            Key::Right => self.right,
        }
    }

    fn read(&self, k: Key) -> (r: bool)
        ensures
            r == self.flag(k),
    {
        match k {
            Key::Up => self.up,
            Key::Down => self.down,
            Key::Left => self.left,
            Key::Right => self.right,
        }
    }

    fn write(&mut self, k: Key, v: bool)
        ensures
            forall|q: Key| final(self).flag(q) == (if q == k { v } else { old(self).flag(q) }),
    {
        match k {
            Key::Up => self.up = v,
            Key::Down => self.down = v,
            Key::Left => self.left = v,
            Key::Right => self.right = v,
        }
    }
}

/// Per-frame keyboard state, written by the host event loop and read by
/// scripts. `press` is level-triggered: true while a key is physically held.
/// `trigger` is edge-triggered: true only during the frame that follows the
/// key's release, and cleared unconditionally at every frame start.
pub struct Input {
    press: KeyFlags,
    trigger: KeyFlags,
}

impl Input {
    /// Whether `k` is held down in this state.
    pub closed spec fn pressed(self, k: Key) -> bool {
        self.press.flag(k)
    }

    /// Whether `k` was released during the frame this state belongs to.
    pub closed spec fn triggered(self, k: Key) -> bool {
        self.trigger.flag(k)
    }

    /// How a key-down event transforms the state: the key becomes held,
    /// nothing else moves.
    pub open spec fn key_down_rel(pre: Input, post: Input, k: Key) -> bool {
        &&& forall|q: Key|
            post.pressed(q) == (if q == k {
                true
            } else {
                pre.pressed(q)
            })
        &&& forall|q: Key| post.triggered(q) == pre.triggered(q)
    }

    /// How a key-up event transforms the state: the key stops being held and
    /// its trigger is raised for the coming frame; other keys do not move.
    pub open spec fn key_up_rel(pre: Input, post: Input, k: Key) -> bool {
        &&& forall|q: Key|
            post.pressed(q) == (if q == k {
                false
            } else {
                pre.pressed(q)
            })
        &&& forall|q: Key|
            post.triggered(q) == (if q == k {
                true
            } else {
                pre.triggered(q)
            })
    }

    /// How a frame start transforms the state: every trigger is cleared,
    /// unconditionally; the held keys persist untouched.
    pub open spec fn begin_frame_rel(pre: Input, post: Input) -> bool {
        &&& forall|q: Key| !post.triggered(q)
        &&& forall|q: Key| post.pressed(q) == pre.pressed(q)
    }

    /// A state with nothing held and nothing triggered.
    pub fn new() -> (i: Input)
        ensures
            forall|q: Key| !i.pressed(q),
            forall|q: Key| !i.triggered(q),
    {
        Input {
            press: KeyFlags { up: false, down: false, left: false, right: false },
            trigger: KeyFlags { up: false, down: false, left: false, right: false },
        }
    }

    /// Records that `k` was physically pressed.
    pub fn key_down(&mut self, k: Key)
        ensures
            Input::key_down_rel(*old(self), *final(self), k),
    {
        self.press.write(k, true);
    }

    /// Records that `k` was physically released: it stops being held and its
    /// trigger is raised for the frame that now follows.
    pub fn key_up(&mut self, k: Key)
        ensures
            Input::key_up_rel(*old(self), *final(self), k),
    {
        self.trigger.write(k, true);
        self.press.write(k, false);
    }

    /// Starts a new input frame: clears the whole trigger mapping,
    /// unconditionally, after scripts had their chance to read it. Held keys
    /// are never cleared here.
    pub fn begin_frame(&mut self)
        ensures
            Input::begin_frame_rel(*old(self), *final(self)),
    {
        self.trigger = KeyFlags { up: false, down: false, left: false, right: false };
    }

    /// Whether `k` is held, with missing state defaulting to false.
    pub fn is_pressed_key(&self, k: Key) -> (r: bool)
        ensures
            r == self.pressed(k),
    {
        self.press.read(k)
    }

    /// Whether `k` was released during this frame.
    pub fn is_triggered_key(&self, k: Key) -> (r: bool)
        ensures
            r == self.triggered(k),
    {
        self.trigger.read(k)
    }

    /// `is_pressed_key` looked up through a symbolic name; unrecognized
    /// names read as "always false" rather than erroring.
    pub fn is_pressed(&self, name: &str) -> (r: bool)
        ensures
            r == (match key_of_bytes(name.spec_bytes()) {
                Some(k) => self.pressed(k),
                None => false,
            }),
    {
        match key_of_name(name) {
            Some(k) => self.is_pressed_key(k),
            None => false,
        }
    }

    /// `is_triggered_key` looked up through a symbolic name; unrecognized
    /// names read as "always false" rather than erroring.
    pub fn is_triggered(&self, name: &str) -> (r: bool)
        ensures
            r == (match key_of_bytes(name.spec_bytes()) {
                Some(k) => self.triggered(k),
                None => false,
            }),
    {
        match key_of_name(name) {
            Some(k) => self.is_triggered_key(k),
            None => false,
        }
    }
}

/// A key's trigger is observable during exactly one frame: right after the
/// key-up event it reads true, and after the next frame start it reads false
/// again, while the key's held state carries across that frame start
/// unchanged.
pub proof fn lemma_trigger_lasts_one_frame(i0: Input, i1: Input, i2: Input, k: Key)
    requires
        Input::key_up_rel(i0, i1, k),
        Input::begin_frame_rel(i1, i2),
    ensures
        i1.triggered(k),
        !i1.pressed(k),
        !i2.triggered(k),
        i2.pressed(k) == i1.pressed(k),
{
}

/// ASCII lowercasing of one byte; other bytes pass through unchanged.
pub open spec fn lower_byte(b: u8) -> u8 {
    if 65 <= b <= 90 {
        (b + 32) as u8
    } else {
        b
    }
}

/// The key a symbolic name's UTF-8 bytes denote: "up", "down", "left" or
/// "right", compared case-insensitively over ASCII; any other name denotes
/// no key.
pub open spec fn key_of_bytes(s: Seq<u8>) -> Option<Key> {
    if s.len() == 2 && lower_byte(s[0]) == 117 && lower_byte(s[1]) == 112 {
        Some(Key::Up)
    } else if s.len() == 4 && lower_byte(s[0]) == 100 && lower_byte(s[1]) == 111 && lower_byte(
        s[2],
    ) == 119 && lower_byte(s[3]) == 110 {
        Some(Key::Down)
    } else if s.len() == 4 && lower_byte(s[0]) == 108 && lower_byte(s[1]) == 101 && lower_byte(
        s[2],
    ) == 102 && lower_byte(s[3]) == 116 {
        Some(Key::Left)
    } else if s.len() == 5 && lower_byte(s[0]) == 114 && lower_byte(s[1]) == 105 && lower_byte(
        s[2],
    ) == 103 && lower_byte(s[3]) == 104 && lower_byte(s[4]) == 116 {
        Some(Key::Right)
    } else {
        None
    }
}

fn lower_byte_exec(b: u8) -> (r: u8)
    ensures
        r == lower_byte(b),
{
    if 65 <= b && b <= 90 {
        b + 32
    } else {
        b
    }
}

/// Maps a symbolic key name to its key, case-insensitively; unrecognized
/// names map to `None`.
pub fn key_of_name(name: &str) -> (r: Option<Key>)
    ensures
        r == key_of_bytes(name.spec_bytes()),
{
    let b = name.as_bytes();
    if b.len() == 2 {
        if lower_byte_exec(b[0]) == 117 && lower_byte_exec(b[1]) == 112 {
            return Some(Key::Up);
        }
    } else if b.len() == 4 {
        if lower_byte_exec(b[0]) == 100 && lower_byte_exec(b[1]) == 111 && lower_byte_exec(b[2])
            == 119 && lower_byte_exec(b[3]) == 110 {
            return Some(Key::Down);
        }
        if lower_byte_exec(b[0]) == 108 && lower_byte_exec(b[1]) == 101 && lower_byte_exec(b[2])
            == 102 && lower_byte_exec(b[3]) == 116 {
            return Some(Key::Left);
        }
    } else if b.len() == 5 {
        if lower_byte_exec(b[0]) == 114 && lower_byte_exec(b[1]) == 105 && lower_byte_exec(b[2])
            == 103 && lower_byte_exec(b[3]) == 104 && lower_byte_exec(b[4]) == 116 {
            return Some(Key::Right);
        }
    }
    None
}

} // verus!
