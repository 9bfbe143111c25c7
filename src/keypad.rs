use vstd::prelude::*;

verus! {

/// The state of one key latch.
#[derive(PartialEq, Eq, Structural, Copy, Clone, Debug)]
pub enum KeyState {
    Up,
    Down,
}

/// The sixteen key latches, written by the host and read by the interpreter.
pub struct Keypad {
    pub keys: [KeyState; 16],
}

impl View for Keypad {
    type V = Seq<KeyState>;

    open spec fn view(&self) -> Seq<KeyState> {
        self.keys@
    }
}

/// Sixteen released keys.
pub open spec fn all_up() -> Seq<KeyState> {
    Seq::new(16, |_i: int| KeyState::Up)
}

impl Default for Keypad {
    fn default() -> (r: Keypad)
        ensures
            r@ == all_up(),
    {
        Keypad::new()
    }
}

impl Keypad {
    pub fn new() -> (r: Keypad)
        ensures
            r@ == all_up(),
    {
        let mut r = Keypad { keys: [KeyState::Up; 16] };
        r.reset();
        r
    }

    /// Releases every key.
    pub fn reset(&mut self)
        ensures
            final(self)@ == all_up(),
    {
        let mut i: usize = 0;
        while i < 16
            invariant
                i <= 16,
                self@.len() == 16,
                forall|j: int| 0 <= j < i ==> self@[j] == KeyState::Up,
            decreases 16 - i,
        {
            self.keys[i] = KeyState::Up;
            i = i + 1;
        }
        assert(self@ =~= all_up());
    }

    pub fn is_key_up(&self, key: usize) -> (r: bool)
        requires
            key < 16,
        ensures
            r == (self@[key as int] == KeyState::Up),
    {
        self.keys[key].is_key_up()
    }

    pub fn is_key_down(&self, key: usize) -> (r: bool)
        requires
            key < 16,
        ensures
            r == (self@[key as int] == KeyState::Down),
    {
        self.keys[key].is_key_down()
    }

    pub fn set_key_up(&mut self, key: usize)
        requires
            key < 16,
        ensures
            final(self)@ == old(self)@.update(key as int, KeyState::Up),
    {
        self.keys[key] = KeyState::Up;
    }

    pub fn set_key_down(&mut self, key: usize)
        requires
            key < 16,
        ensures
            final(self)@ == old(self)@.update(key as int, KeyState::Down),
    {
        self.keys[key] = KeyState::Down;
    }
}

impl KeyState {
    pub fn is_key_up(&self) -> (r: bool)
        ensures
            r == (*self == KeyState::Up),
    {
        *self == KeyState::Up
    }

    pub fn is_key_down(&self) -> (r: bool)
        ensures
            r == (*self == KeyState::Down),
    {
        *self == KeyState::Down
    }

    pub fn set_key_up(&mut self)
        ensures
            *final(self) == KeyState::Up,
    {
        *self = KeyState::Up;
    }

    pub fn set_key_down(&mut self)
        ensures
            *final(self) == KeyState::Down,
    {
        *self = KeyState::Down;
    }
}

} // verus!
