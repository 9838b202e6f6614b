//! The 16-key input device and the blocking key-wait sub-state.
use vstd::prelude::*;

use crate::util::falses;

verus! {

pub const KEYBOARD_SIZE: usize = 16;

/// Mathematical model of the keypad: 16 key states plus the optional
/// "awaiting a key" sub-state carrying its destination register index.
#[verifier::ext_equal]
pub ghost struct KeymapView {
    pub keys: Seq<bool>,
    pub awaiting: bool,
    pub awaiting_register: int,
}

impl KeymapView {
    pub open spec fn wf(self) -> bool {
        &&& self.keys.len() == 16
        &&& 0 <= self.awaiting_register < 16
    }
}

/// Index of the lowest pressed key at or after position `i`, if any.
/// The lowest index winning on simultaneous presses is the documented
/// tie-break for resolving a key wait.
pub open spec fn first_pressed_from(keys: Seq<bool>, i: int) -> Option<int>
    decreases keys.len() - i,
{
    if i < 0 || i >= keys.len() {
        None
    } else if keys[i] {
        Some(i)
    } else {
        first_pressed_from(keys, i + 1)
    }
}

/// Index of the lowest pressed key, if any key is pressed.
pub open spec fn first_pressed(keys: Seq<bool>) -> Option<int> {
    first_pressed_from(keys, 0)
}

/// The keypad: physical key states are refreshed wholesale each tick by
/// the host, and one opcode parks the machine here to wait for a press.
pub struct Keymap {
    keys_pressed: Vec<bool>,
    awaiting_keypress: bool,
    awaiting_keypress_register: usize,
}

impl View for Keymap {
    type V = KeymapView;

    closed spec fn view(&self) -> KeymapView {
        KeymapView {
            keys: self.keys_pressed@,
            awaiting: self.awaiting_keypress,
            awaiting_register: self.awaiting_keypress_register as int,
        }
    }
}

impl Keymap {
    pub fn new() -> (k: Keymap)
        ensures
            k@.wf(),
            k@.keys =~= Seq::new(16, |i: int| false),
            !k@.awaiting,
            k@.awaiting_register == 0,
    {
        Keymap {
            keys_pressed: falses(KEYBOARD_SIZE),
            awaiting_keypress: false,
            awaiting_keypress_register: 0,
        }
    }

    /// Refresh all 16 key states from the host's already-mapped snapshot.
    pub fn update(&mut self, keys: &Vec<bool>)
        requires
            keys@.len() == 16,
        ensures
            final(self)@ == (KeymapView { keys: keys@, ..old(self)@ }),
    {
        let mut fresh: Vec<bool> = Vec::new();
        let mut k: usize = 0;
        while k < 16
            invariant
                k <= 16,
                keys@.len() == 16,
                fresh@.len() == k,
                forall|j: int| 0 <= j < k ==> fresh@[j] == keys@[j],
            decreases 16 - k,
        {
            fresh.push(keys[k]);
            k = k + 1;
        }
        assert(fresh@ =~= keys@);
        self.keys_pressed = fresh;
    }

    pub fn is_key_pressed(&self, value: usize) -> (r: bool)
        requires
            self@.wf(),
            value < 16,
        ensures
            r == self@.keys[value as int],
    {
        self.keys_pressed[value]
    }

    pub fn set_awaiting_keypress(&mut self, value: bool)
        ensures
            final(self)@ == (KeymapView { awaiting: value, ..old(self)@ }),
    {
        self.awaiting_keypress = value;
    }

    pub fn set_awaiting_keypress_register(&mut self, value: usize)
        requires
            value < 16,
        ensures
            final(self)@ == (KeymapView { awaiting_register: value as int, ..old(self)@ }),
    {
        self.awaiting_keypress_register = value;
    }

    pub fn get_awaiting_keypress_register(&self) -> (r: usize)
        ensures
            r as int == self@.awaiting_register,
    {
        self.awaiting_keypress_register
    }

    pub fn is_awaiting_keypress(&self) -> (r: bool)
        ensures
            r == self@.awaiting,
    {
        self.awaiting_keypress
    }

    /// Scan for a pressed key; on finding one (lowest index wins), hand
    /// its index back and leave the waiting sub-state.
    pub fn await_keypress(&mut self) -> (r: Option<u8>)
        requires
            old(self)@.wf(),
        ensures
            final(self)@.wf(),
            final(self)@.keys == old(self)@.keys,
            final(self)@.awaiting_register == old(self)@.awaiting_register,
            match first_pressed(old(self)@.keys) {
                Some(k) => r == Some(k as u8) && !final(self)@.awaiting,
                None => r is None && final(self)@.awaiting == old(self)@.awaiting,
            },
    {
        let mut k: usize = 0;
        while k < 16
            invariant
                old(self)@.wf(),
                self == old(self),
                k <= 16,
                first_pressed(self@.keys) == first_pressed_from(self@.keys, k as int),
            decreases 16 - k,
        {
            if self.keys_pressed[k] {
                self.awaiting_keypress = false;
                return Some(k as u8);
            }
            k = k + 1;
        }
        None
    }
}

} // verus!
