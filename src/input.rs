use vstd::prelude::*;

use winit::keyboard::KeyCode;

verus! {

#[verifier::external_type_specification]
#[verifier::external_body]
pub struct ExKeyCode(KeyCode);

/// Relies on the derived `PartialEq` of winit's `KeyCode`, a field-less
/// enum: two key codes compare equal exactly when they are the same key.
pub assume_specification[ <KeyCode as core::cmp::PartialEq>::eq ](a: &KeyCode, b: &KeyCode) -> (r: bool)
    ensures
        r == (*a == *b),
;

/// The input state a world reads each frame: the keys held down, the last
/// cursor position, and the three mouse buttons.
pub struct InputState {
    keys_pressed: Vec<KeyCode>,
    mouse_position: Option<(i32, i32)>,
    mouse_buttons: (bool, bool, bool),
}

impl InputState {
    /// The set of keys held down.
    pub closed spec fn keys(&self) -> Set<KeyCode> {
        self.keys_pressed@.to_set()
    }

    /// The last cursor position, in whole physical pixels of the window.
    pub closed spec fn cursor(&self) -> Option<(i32, i32)> {
        self.mouse_position
    }

    /// The left, middle and right mouse buttons.
    pub closed spec fn buttons(&self) -> (bool, bool, bool) {
        self.mouse_buttons
    }

    /// No key is listed twice.
    pub closed spec fn wf(&self) -> bool {
        self.keys_pressed@.no_duplicates()
    }

    /// No key held, no cursor, no button pressed.
    pub fn new() -> (r: Self)
        ensures
            r.wf(),
            r.keys() == Set::<KeyCode>::empty(),
            r.cursor() is None,
            r.buttons() == (false, false, false),
    {
        let r = InputState { keys_pressed: Vec::new(), mouse_position: None, mouse_buttons: (false, false, false) };
        assert(r.keys_pressed@.to_set() =~= Set::<KeyCode>::empty());
        r
    }

    /// Position of `key` in the list of held keys, if it is held.
    fn find_key(&self, key: KeyCode) -> (r: Option<usize>)
        ensures
            r matches Some(i) ==> i < self.keys_pressed@.len() && self.keys_pressed@[i as int] == key,
            r is None ==> !self.keys_pressed@.contains(key),
    {
        let mut i: usize = 0;
        while i < self.keys_pressed.len()
            invariant
                i <= self.keys_pressed@.len(),
                forall|j: int| 0 <= j < i ==> self.keys_pressed@[j] != key,
            decreases self.keys_pressed@.len() - i,
        {
            if self.keys_pressed[i] == key {
                return Some(i);
            }
            i += 1;
        }
        None
    }

    /// Check if a specific key is currently pressed.
    pub fn is_key_pressed(&self, key: KeyCode) -> (r: bool)
        ensures
            r == self.keys().contains(key),
    {
        self.find_key(key).is_some()
    }

    /// Check if the left mouse button is pressed.
    pub fn is_left_mouse_pressed(&self) -> (r: bool)
        ensures
            r == self.buttons().0,
    {
        self.mouse_buttons.0
    }

    /// Check if the middle mouse button is pressed.
    pub fn is_middle_mouse_pressed(&self) -> (r: bool)
        ensures
            r == self.buttons().1,
    {
        self.mouse_buttons.1
    }

    /// Check if the right mouse button is pressed.
    pub fn is_right_mouse_pressed(&self) -> (r: bool)
        ensures
            r == self.buttons().2,
    {
        self.mouse_buttons.2
    }

    /// The last cursor position, or `None` when the cursor has left the window.
    pub fn mouse_position(&self) -> (r: Option<(i32, i32)>)
        ensures
            r == self.cursor(),
    {
        self.mouse_position
    }

    /// A key went down: it is now held.
    pub fn press_key(&mut self, key: KeyCode)
        requires
            old(self).wf(),
        ensures
            final(self).wf(),
            final(self).keys() == old(self).keys().insert(key),
            final(self).cursor() == old(self).cursor(),
            final(self).buttons() == old(self).buttons(),
    {
        if self.find_key(key).is_none() {
            let ghost before = self.keys_pressed@;
            self.keys_pressed.push(key);
            assert(self.keys_pressed@ == before.push(key));
            proof {
                before.lemma_push_to_set_commute(key);
                assert forall|i: int, j: int| 0 <= i < j < self.keys_pressed@.len() implies self.keys_pressed@[i]
                    != self.keys_pressed@[j] by {
                    if j == before.len() {
                        assert(before.contains(before[i]));
                    }
                }
            }
        } else {
            proof {
                assert(self.keys_pressed@.contains(key));
                assert(self.keys_pressed@.to_set().insert(key) =~= self.keys_pressed@.to_set());
            }
        }
    }

    /// A key went up: it is no longer held.
    pub fn release_key(&mut self, key: KeyCode)
        requires
            old(self).wf(),
        ensures
            final(self).wf(),
            final(self).keys() == old(self).keys().remove(key),
            final(self).cursor() == old(self).cursor(),
            final(self).buttons() == old(self).buttons(),
    {
        match self.find_key(key) {
            Some(i) => {
                let ghost before = self.keys_pressed@;
                self.keys_pressed.remove(i);
                proof {
                    assert(self.keys_pressed@ == before.remove(i as int));
                    assert forall|k: KeyCode| self.keys_pressed@.to_set().contains(k) <==> before.to_set().remove(key).contains(k) by {
                        if self.keys_pressed@.contains(k) {
                            let j = choose|j: int| 0 <= j < self.keys_pressed@.len() && self.keys_pressed@[j] == k;
                            if j < i {
                                assert(before[j] == k);
                            } else {
                                assert(before[j + 1] == k);
                            }
                        }
                        if before.contains(k) && k != key {
                            let j = choose|j: int| 0 <= j < before.len() && before[j] == k;
                            if j < i {
                                assert(self.keys_pressed@[j] == k);
                            } else {
                                assert(self.keys_pressed@[j - 1] == k);
                            }
                        }
                    }
                    assert(self.keys_pressed@.to_set() =~= before.to_set().remove(key));
                }
            },
            None => {
                proof {
                    assert(self.keys_pressed@.to_set().remove(key) =~= self.keys_pressed@.to_set());
                }
            },
        }
    }

    /// The cursor moved to `(x, y)`.
    pub fn move_cursor(&mut self, x: i32, y: i32)
        ensures
            final(self).wf() == old(self).wf(),
            final(self).keys() == old(self).keys(),
            final(self).cursor() == Some((x, y)),
            final(self).buttons() == old(self).buttons(),
    {
        self.mouse_position = Some((x, y));
    }

    /// The cursor left the window: its position is no longer known.
    pub fn cursor_left(&mut self)
        ensures
            final(self).wf() == old(self).wf(),
            final(self).keys() == old(self).keys(),
            final(self).cursor() is None,
            final(self).buttons() == old(self).buttons(),
    {
        self.mouse_position = None;
    }

    /// The left mouse button went down (`true`) or up (`false`).
    pub fn set_left_mouse(&mut self, pressed: bool)
        ensures
            final(self).wf() == old(self).wf(),
            final(self).keys() == old(self).keys(),
            final(self).cursor() == old(self).cursor(),
            final(self).buttons() == (pressed, old(self).buttons().1, old(self).buttons().2),
    {
        self.mouse_buttons.0 = pressed;
    }

    /// The middle mouse button went down (`true`) or up (`false`).
    pub fn set_middle_mouse(&mut self, pressed: bool)
        ensures
            final(self).wf() == old(self).wf(),
            final(self).keys() == old(self).keys(),
            final(self).cursor() == old(self).cursor(),
            final(self).buttons() == (old(self).buttons().0, pressed, old(self).buttons().2),
    {
        self.mouse_buttons.1 = pressed;
    }

    /// The right mouse button went down (`true`) or up (`false`).
    pub fn set_right_mouse(&mut self, pressed: bool)
        ensures
            final(self).wf() == old(self).wf(),
            final(self).keys() == old(self).keys(),
            final(self).cursor() == old(self).cursor(),
            final(self).buttons() == (old(self).buttons().0, old(self).buttons().1, pressed),
    {
        self.mouse_buttons.2 = pressed;
    }
}

} // verus!
