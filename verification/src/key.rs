//! Per-key state: bound input codes, anchor position, base sprite and the
//! visual state bits (pressed, contracted, elongated).

use vstd::prelude::*;

verus! {

/// Visual length deformation applied to an idle directional key by the d-pad
/// state machine.  `Contracted` and `Elongated` are mutually exclusive.
#[derive(Clone, Copy, PartialEq, Eq, Structural, Debug)]
pub enum LengthState {
    Neutral,
    Contracted,
    Elongated,
}

/// One on-screen key.  `x` and `y` are the anchor position on the surface in
/// pixels; `sprite_id` is the base sprite identifier; the three booleans are
/// the state bits that select the sprite variant actually drawn.
pub struct Key {
    pub primary_input_code: u32,
    pub secondary_input_code: u32,
    pub name: String,
    pub x: i32,
    pub y: i32,
    pub sprite_id: i32,
    pub pressed: bool,
    pub contracted: bool,
    pub elongated: bool,
}

/// The fields of `b` that no state mutator may touch are those of `a`.
pub open spec fn same_key_identity(a: Key, b: Key) -> bool {
    &&& b.primary_input_code == a.primary_input_code
    &&& b.secondary_input_code == a.secondary_input_code
    &&& b.name == a.name
    &&& b.x == a.x
    &&& b.y == a.y
    &&& b.sprite_id == a.sprite_id
}

/// The invariant the d-pad recompute maintains: the two length flags are
/// mutually exclusive, and a pressed key carries neither.
pub open spec fn length_state_ok(k: Key) -> bool {
    &&& !(k.contracted && k.elongated)
    &&& k.pressed ==> !k.contracted && !k.elongated
}

impl Key {
    /// The base sprite identifier stays below the bit reserved for `pressed`.
    pub open spec fn wf(&self) -> bool {
        0 <= self.sprite_id < 16
    }

    /// Index of the sprite variant this key displays: the base identifier
    /// offset by one bit weight per set state flag.
    pub open spec fn spec_sprite_index(&self) -> int {
        self.sprite_id + (if self.pressed {
            16int
        } else {
            0int
        }) + (if self.contracted {
            32int
        } else {
            0int
        }) + (if self.elongated {
            64int
        } else {
            0int
        })
    }

    pub fn is_pressed(&self) -> (r: bool)
        ensures
            r == self.pressed,
    {
        self.pressed
    }

    pub fn set_pressed(&mut self, value: bool)
        ensures
            same_key_identity(*old(self), *final(self)),
            final(self).pressed == value,
            final(self).contracted == old(self).contracted,
            final(self).elongated == old(self).elongated,
    {
        self.pressed = value;
    }

    pub fn clear_length_state(&mut self)
        ensures
            same_key_identity(*old(self), *final(self)),
            final(self).pressed == old(self).pressed,
            !final(self).contracted,
            !final(self).elongated,
    {
        self.contracted = false;
        self.elongated = false;
    }

    pub fn set_length_state(&mut self, state: LengthState)
        ensures
            same_key_identity(*old(self), *final(self)),
            final(self).pressed == old(self).pressed,
            final(self).contracted == (old(self).contracted || state == LengthState::Contracted),
            final(self).elongated == (old(self).elongated || state == LengthState::Elongated),
    {
        match state {
            LengthState::Neutral => {},
            LengthState::Contracted => {
                self.contracted = true;
            },
            LengthState::Elongated => {
                self.elongated = true;
            },
        }
    }

    pub fn sprite_index(&self) -> (r: i32)
        requires
            self.wf(),
        ensures
            r == self.spec_sprite_index(),
    {
        let mut r = self.sprite_id;
        if self.pressed {
            r = r + 16;
        }
        if self.contracted {
            r = r + 32;
        }
        if self.elongated {
            r = r + 64;
        }
        r
    }
}

} // verus!
