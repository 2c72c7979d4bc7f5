//! Translation of platform input events into key model updates: decoding a
//! hook message identifier into a key transition, and finding which key a
//! raw input code is bound to.

use vstd::prelude::*;

use crate::key::Key;
use crate::scene::POWER;

verus! {

/// Window message identifiers of key transitions, as the platform's
/// low-level keyboard hook delivers them.
pub const WM_KEYDOWN: u32 = 0x0100;

pub const WM_KEYUP: u32 = 0x0101;

pub const WM_SYSKEYDOWN: u32 = 0x0104;

pub const WM_SYSKEYUP: u32 = 0x0105;

/// The key transition a hook message carries, if any.
#[derive(Clone, Copy, PartialEq, Eq, Structural, Debug)]
pub enum KeyState {
    Other,
    Pressed,
    Released,
}

/// The transition encoded in the low 32 bits of a hook message identifier.
pub open spec fn spec_key_state(w: u32) -> KeyState {
    if w == WM_KEYDOWN || w == WM_SYSKEYDOWN {
        KeyState::Pressed
    } else if w == WM_KEYUP || w == WM_SYSKEYUP {
        KeyState::Released
    } else {
        KeyState::Other
    }
}

/// Decodes the message identifier handed to the keyboard hook into the key
/// transition it announces; any other message is `Other`.
pub fn key_state_from_wparam(wparam: usize) -> (r: KeyState)
    ensures
        r == spec_key_state(wparam as u32),
{
    let w: u32 = #[verifier::truncate] (wparam as u32);
    if w == WM_KEYDOWN || w == WM_SYSKEYDOWN {
        KeyState::Pressed
    } else if w == WM_KEYUP || w == WM_SYSKEYUP {
        KeyState::Released
    } else {
        KeyState::Other
    }
}

/// Whether `code` is one of the two input codes bound to `k`.
pub open spec fn key_matches(k: Key, code: u32) -> bool {
    k.primary_input_code == code || k.secondary_input_code == code
}

/// Whether any key in the layout is bound to `code`.
pub open spec fn has_key_match(keys: Seq<Key>, code: u32) -> bool {
    exists|i: int| 0 <= i < keys.len() && #[trigger] key_matches(keys[i], code)
}

/// Finds the first key bound to `key_code`.  When none is bound and the
/// restart chord (control together with the restart letter) is down, the
/// power key takes the event instead.
pub fn find_key_for_code(keys: &Vec<Key>, key_code: u32, restart_combo: bool) -> (r: Option<usize>)
    ensures
        has_key_match(keys@, key_code) ==> r is Some && r->0 < keys@.len() && key_matches(
            keys@[r->0 as int],
            key_code,
        ) && (forall|j: int| 0 <= j < r->0 ==> !#[trigger] key_matches(keys@[j], key_code)),
        !has_key_match(keys@, key_code) && restart_combo && keys@.len() > POWER ==> r == Some(
            POWER,
        ),
        !has_key_match(keys@, key_code) && !(restart_combo && keys@.len() > POWER) ==> r is None,
        r is Some ==> r->0 < keys@.len(),
{
    let n = keys.len();
    let mut i: usize = 0;
    while i < n
        invariant
            0 <= i <= n,
            n == keys@.len(),
            forall|j: int| 0 <= j < i ==> !#[trigger] key_matches(keys@[j], key_code),
        decreases n - i,
    {
        if keys[i].primary_input_code == key_code || keys[i].secondary_input_code == key_code {
            proof {
                assert(key_matches(keys@[i as int], key_code));
            }
            return Some(i);
        }
        proof {
            assert(!key_matches(keys@[i as int], key_code));
        }
        i = i + 1;
    }
    if restart_combo && keys.len() > POWER {
        Some(POWER)
    } else {
        None
    }
}

} // verus!
