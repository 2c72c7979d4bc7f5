//! The directional-pad state machine.  Every recompute runs two passes over
//! the four directional keys: the first accumulates the shift deltas of the
//! pressed keys into one combined total, the second applies that total to
//! every arrow and sets the length deformation of each key that is not
//! pressed — elongated when the total points up, contracted when it points
//! down.

use vstd::prelude::*;

use crate::key::Key;
use crate::key::LengthState;
use crate::key::length_state_ok;
use crate::key::same_key_identity;

verus! {

/// Source rectangle and destination offset of the sprite fragment redrawn
/// over the edge of a directional key to extend a deformed neighbour.
#[derive(Clone, Copy, PartialEq, Eq, Structural, Debug)]
pub struct Overhang {
    pub x_src: i32,
    pub y_src: i32,
    pub x_dest: i32,
    pub y_dest: i32,
    pub width: i32,
    pub height: i32,
}

/// The arrow sprite attached to a directional key: its base sprite, whether
/// the pressed variant is shown, its fixed offset from the key's anchor, and
/// the shared animated shift applied this frame.
#[derive(Clone, Copy, PartialEq, Eq, Structural, Debug)]
pub struct Arrow {
    pub idx: i32,
    pub pressed: bool,
    pub key_x_offset: i32,
    pub key_y_offset: i32,
    pub current_x_shift: i32,
    pub current_y_shift: i32,
}

/// One directional key of the pad: the key it animates, the shift its press
/// contributes, its overhang fragment and its arrow.
#[derive(Clone, Copy, PartialEq, Eq, Structural, Debug)]
pub struct DpadKey {
    pub key_id: usize,
    pub pressed_x_shift: i32,
    pub pressed_y_shift: i32,
    pub overhang: Overhang,
    pub arrow: Arrow,
}

impl Arrow {
    /// Index of the arrow sprite shown: the base sprite, offset by the bit
    /// weight reserved for the pressed variant.
    pub open spec fn spec_sprite_index(&self) -> int {
        self.idx + (if self.pressed {
            4int
        } else {
            0int
        })
    }

    pub fn sprite_index(&self) -> (r: i32)
        requires
            0 <= self.idx < 4,
        ensures
            r == self.spec_sprite_index(),
    {
        if self.pressed {
            self.idx + 4
        } else {
            self.idx
        }
    }
}

impl DpadKey {
    pub fn new(
        idx: usize,
        pressed_x_shift: i32,
        pressed_y_shift: i32,
        overhang_x_src: i32,
        overhang_y_src: i32,
        overhang_x_dest: i32,
        overhang_y_dest: i32,
        overhang_width: i32,
        overhang_height: i32,
        arrow_x_offset: i32,
        arrow_y_offset: i32,
    ) -> (r: DpadKey)
        requires
            idx <= i32::MAX,
        ensures
            r == (DpadKey {
                key_id: idx,
                pressed_x_shift: pressed_x_shift,
                pressed_y_shift: pressed_y_shift,
                overhang: Overhang {
                    x_src: overhang_x_src,
                    y_src: overhang_y_src,
                    x_dest: overhang_x_dest,
                    y_dest: overhang_y_dest,
                    width: overhang_width,
                    height: overhang_height,
                },
                arrow: Arrow {
                    idx: idx as i32,
                    pressed: false,
                    key_x_offset: arrow_x_offset,
                    key_y_offset: arrow_y_offset,
                    current_x_shift: 0,
                    current_y_shift: 0,
                },
            }),
    {
        DpadKey {
            key_id: idx,
            pressed_x_shift: pressed_x_shift,
            pressed_y_shift: pressed_y_shift,
            overhang: Overhang {
                x_src: overhang_x_src,
                y_src: overhang_y_src,
                x_dest: overhang_x_dest,
                y_dest: overhang_y_dest,
                width: overhang_width,
                height: overhang_height,
            },
            arrow: Arrow {
                idx: idx as i32,
                pressed: false,
                key_x_offset: arrow_x_offset,
                key_y_offset: arrow_y_offset,
                current_x_shift: 0,
                current_y_shift: 0,
            },
        }
    }
}

/// Combined horizontal shift of the pad: the sum of the x deltas of the
/// entries whose key is pressed.
pub open spec fn total_shift_x(dpads: Seq<DpadKey>, keys: Seq<Key>) -> int
    decreases dpads.len(),
{
    if dpads.len() == 0 {
        0
    } else {
        total_shift_x(dpads.drop_last(), keys) + (if keys[dpads.last().key_id as int].pressed {
            dpads.last().pressed_x_shift as int
        } else {
            0int
        })
    }
}

/// Combined vertical shift of the pad: the sum of the y deltas of the
/// entries whose key is pressed.
pub open spec fn total_shift_y(dpads: Seq<DpadKey>, keys: Seq<Key>) -> int
    decreases dpads.len(),
{
    if dpads.len() == 0 {
        0
    } else {
        total_shift_y(dpads.drop_last(), keys) + (if keys[dpads.last().key_id as int].pressed {
            dpads.last().pressed_y_shift as int
        } else {
            0int
        })
    }
}

/// With every delta bounded, the combined shift of the pad is bounded by the
/// delta bound times the number of entries.
pub proof fn lemma_total_shift_bounds(dpads: Seq<DpadKey>, keys: Seq<Key>)
    requires
        forall|i: int|
            0 <= i < dpads.len() ==> -0x100000 <= (#[trigger] dpads[i]).pressed_x_shift <= 0x100000
                && -0x100000 <= dpads[i].pressed_y_shift <= 0x100000,
    ensures
        -0x100000 * dpads.len() <= total_shift_x(dpads, keys) <= 0x100000 * dpads.len(),
        -0x100000 * dpads.len() <= total_shift_y(dpads, keys) <= 0x100000 * dpads.len(),
    decreases dpads.len(),
{
    if dpads.len() > 0 {
        assert(forall|i: int|
            0 <= i < dpads.drop_last().len() ==> dpads.drop_last()[i] == dpads[i]);
        lemma_total_shift_bounds(dpads.drop_last(), keys);
    }
}

/// Whether one of the first `n` pad entries points at key `k`.
pub open spec fn dpad_covers(dpads: Seq<DpadKey>, n: int, k: int) -> bool {
    exists|i: int| 0 <= i < n && (#[trigger] dpads[i]).key_id == k
}

/// What a recompute asks of the pad: every entry points at a key, no two
/// entries share a key (one entry per direction), and the deltas and entry
/// count are small enough that the accumulated totals cannot overflow.
pub open spec fn dpad_config_ok(dpads: Seq<DpadKey>, keys: Seq<Key>) -> bool {
    &&& dpads.len() <= 1024
    &&& forall|i: int| 0 <= i < dpads.len() ==> (#[trigger] dpads[i]).key_id < keys.len()
    &&& forall|i: int, j: int|
        0 <= i < j < dpads.len() ==> dpads[i].key_id != dpads[j].key_id
    &&& forall|i: int|
        0 <= i < dpads.len() ==> -0x100000 <= (#[trigger] dpads[i]).pressed_x_shift <= 0x100000
            && -0x100000 <= dpads[i].pressed_y_shift <= 0x100000
}

/// Entry state after the first pass: the arrow's pressed flag mirrors the
/// key, everything else is as before.
pub open spec fn dpad_entry_flagged(d0: DpadKey, d1: DpadKey, key_pressed: bool) -> bool {
    &&& d1.key_id == d0.key_id
    &&& d1.pressed_x_shift == d0.pressed_x_shift
    &&& d1.pressed_y_shift == d0.pressed_y_shift
    &&& d1.overhang == d0.overhang
    &&& d1.arrow.idx == d0.arrow.idx
    &&& d1.arrow.key_x_offset == d0.arrow.key_x_offset
    &&& d1.arrow.key_y_offset == d0.arrow.key_y_offset
    &&& d1.arrow.current_x_shift == d0.arrow.current_x_shift
    &&& d1.arrow.current_y_shift == d0.arrow.current_y_shift
    &&& d1.arrow.pressed == key_pressed
}

/// Entry state after the full recompute: the arrow's pressed flag mirrors
/// the key, both animated shifts hold the combined totals, everything else
/// is as before.
pub open spec fn dpad_entry_recomputed(
    d0: DpadKey,
    d1: DpadKey,
    key_pressed: bool,
    tx: int,
    ty: int,
) -> bool {
    &&& d1.key_id == d0.key_id
    &&& d1.pressed_x_shift == d0.pressed_x_shift
    &&& d1.pressed_y_shift == d0.pressed_y_shift
    &&& d1.overhang == d0.overhang
    &&& d1.arrow.idx == d0.arrow.idx
    &&& d1.arrow.key_x_offset == d0.arrow.key_x_offset
    &&& d1.arrow.key_y_offset == d0.arrow.key_y_offset
    &&& d1.arrow.pressed == key_pressed
    &&& d1.arrow.current_x_shift == tx
    &&& d1.arrow.current_y_shift == ty
}

/// The pad after a recompute over the old pad and key states.
pub open spec fn dpads_recomputed(
    dpads0: Seq<DpadKey>,
    keys0: Seq<Key>,
    dpads1: Seq<DpadKey>,
) -> bool {
    &&& dpads1.len() == dpads0.len()
    &&& forall|i: int|
        0 <= i < dpads0.len() ==> dpad_entry_recomputed(
            dpads0[i],
            #[trigger] dpads1[i],
            keys0[dpads0[i].key_id as int].pressed,
            total_shift_x(dpads0, keys0),
            total_shift_y(dpads0, keys0),
        )
}

/// Key state after a recompute with combined vertical total `ty`: pressed
/// and identity unchanged, and only an unpressed key carries a deformation —
/// contracted when the total points down, elongated when it points up.
pub open spec fn key_recomputed(k0: Key, k1: Key, ty: int) -> bool {
    &&& same_key_identity(k0, k1)
    &&& k1.pressed == k0.pressed
    &&& k1.contracted == (!k0.pressed && ty > 0)
    &&& k1.elongated == (!k0.pressed && ty < 0)
}

/// The keys after a recompute: every key the pad covers gets the recomputed
/// length state, every other key is untouched.
pub open spec fn keys_recomputed(dpads0: Seq<DpadKey>, keys0: Seq<Key>, keys1: Seq<Key>) -> bool {
    &&& keys1.len() == keys0.len()
    &&& forall|k: int|
        0 <= k < keys0.len() && dpad_covers(dpads0, dpads0.len() as int, k) ==> key_recomputed(
            keys0[k],
            #[trigger] keys1[k],
            total_shift_y(dpads0, keys0),
        )
    &&& forall|k: int|
        0 <= k < keys0.len() && !dpad_covers(dpads0, dpads0.len() as int, k)
            ==> #[trigger] keys1[k] == keys0[k]
}

/// Recomputes the pad: accumulates the shift deltas of the pressed keys,
/// applies the combined total to every arrow, and re-derives each covered
/// key's length state — a pressed key never receives a deformation.
pub fn update_dpad(dpads: &mut Vec<DpadKey>, keys: &mut Vec<Key>)
    requires
        dpad_config_ok(old(dpads)@, old(keys)@),
    ensures
        dpads_recomputed(old(dpads)@, old(keys)@, final(dpads)@),
        keys_recomputed(old(dpads)@, old(keys)@, final(keys)@),
{
    let n = dpads.len();
    let mut total_x: i32 = 0;
    let mut total_y: i32 = 0;
    let mut i: usize = 0;
    while i < n
        invariant
            0 <= i <= n,
            n == dpads@.len(),
            n == old(dpads)@.len(),
            n <= 1024,
            keys@ == old(keys)@,
            dpad_config_ok(old(dpads)@, old(keys)@),
            forall|t: int| i <= t < n ==> dpads@[t] == old(dpads)@[t],
            forall|t: int|
                0 <= t < i ==> dpad_entry_flagged(
                    old(dpads)@[t],
                    #[trigger] dpads@[t],
                    old(keys)@[old(dpads)@[t].key_id as int].pressed,
                ),
            total_x as int == total_shift_x(old(dpads)@.take(i as int), old(keys)@),
            total_y as int == total_shift_y(old(dpads)@.take(i as int), old(keys)@),
            -0x100000 * (i as int) <= total_x as int <= 0x100000 * (i as int),
            -0x100000 * (i as int) <= total_y as int <= 0x100000 * (i as int),
        decreases n - i,
    {
        let d = dpads[i];
        let pressed = keys[d.key_id].is_pressed();
        let mut nd = d;
        nd.arrow.pressed = pressed;
        dpads.set(i, nd);
        if pressed {
            total_x = total_x + d.pressed_x_shift;
            total_y = total_y + d.pressed_y_shift;
        }
        proof {
            assert(old(dpads)@.take(i as int + 1).drop_last() =~= old(dpads)@.take(i as int));
            assert(old(dpads)@.take(i as int + 1).last() == old(dpads)@[i as int]);
        }
        i = i + 1;
    }
    proof {
        assert(old(dpads)@.take(n as int) =~= old(dpads)@);
    }

    let length_state = if total_y < 0 {
        LengthState::Elongated
    } else if total_y > 0 {
        LengthState::Contracted
    } else {
        LengthState::Neutral
    };

    let ghost mid_dpads = dpads@;
    let ghost keys0 = keys@;
    let ghost tx = total_shift_x(old(dpads)@, old(keys)@);
    let ghost ty = total_shift_y(old(dpads)@, old(keys)@);
    let mut i2: usize = 0;
    while i2 < n
        invariant
            0 <= i2 <= n,
            n == dpads@.len(),
            n == old(dpads)@.len(),
            keys@.len() == keys0.len(),
            keys0 == old(keys)@,
            mid_dpads.len() == n,
            dpad_config_ok(old(dpads)@, old(keys)@),
            total_x as int == tx,
            total_y as int == ty,
            tx == total_shift_x(old(dpads)@, old(keys)@),
            ty == total_shift_y(old(dpads)@, old(keys)@),
            (length_state == LengthState::Elongated <==> ty < 0),
            (length_state == LengthState::Contracted <==> ty > 0),
            (length_state == LengthState::Neutral <==> ty == 0),
            forall|t: int|
                0 <= t < n ==> dpad_entry_flagged(
                    old(dpads)@[t],
                    #[trigger] mid_dpads[t],
                    old(keys)@[old(dpads)@[t].key_id as int].pressed,
                ),
            forall|t: int| i2 <= t < n ==> dpads@[t] == mid_dpads[t],
            forall|t: int|
                0 <= t < i2 ==> dpad_entry_recomputed(
                    old(dpads)@[t],
                    #[trigger] dpads@[t],
                    old(keys)@[old(dpads)@[t].key_id as int].pressed,
                    tx,
                    ty,
                ),
            forall|k: int|
                0 <= k < keys0.len() && dpad_covers(old(dpads)@, i2 as int, k) ==> key_recomputed(
                    keys0[k],
                    #[trigger] keys@[k],
                    ty,
                ),
            forall|k: int|
                0 <= k < keys0.len() && !dpad_covers(old(dpads)@, i2 as int, k)
                    ==> #[trigger] keys@[k] == keys0[k],
        decreases n - i2,
    {
        let d = dpads[i2];
        proof {
            assert(d == mid_dpads[i2 as int]);
            assert(dpad_entry_flagged(
                old(dpads)@[i2 as int],
                mid_dpads[i2 as int],
                old(keys)@[old(dpads)@[i2 as int].key_id as int].pressed,
            ));
        }
        let mut nd = d;
        nd.arrow.current_x_shift = total_x;
        nd.arrow.current_y_shift = total_y;
        dpads.set(i2, nd);
        proof {
            assert(dpad_entry_recomputed(
                old(dpads)@[i2 as int],
                dpads@[i2 as int],
                old(keys)@[old(dpads)@[i2 as int].key_id as int].pressed,
                tx,
                ty,
            ));
        }

        let kid = d.key_id;
        proof {
            assert(old(dpads)@[i2 as int].key_id == kid);
            assert(!dpad_covers(old(dpads)@, i2 as int, kid as int));
        }
        let ghost prev_keys = keys@;
        let mut key = keys.remove(kid);
        key.clear_length_state();
        if !key.is_pressed() {
            key.set_length_state(length_state);
        }
        proof {
            assert(key_recomputed(keys0[kid as int], key, ty));
        }
        keys.insert(kid, key);
        proof {
            assert(keys@ =~= prev_keys.update(kid as int, key));
            assert(dpad_covers(old(dpads)@, i2 as int + 1, kid as int));
            assert forall|k: int|
                0 <= k < keys0.len() && dpad_covers(old(dpads)@, i2 as int + 1, k) implies
                key_recomputed(keys0[k], keys@[k], ty) by {
                if k != kid as int {
                    assert(dpad_covers(old(dpads)@, i2 as int, k));
                }
            }
            assert forall|k: int|
                0 <= k < keys0.len() && !dpad_covers(old(dpads)@, i2 as int + 1, k) implies keys@[k]
                == keys0[k] by {
                assert(!dpad_covers(old(dpads)@, i2 as int, k));
            }
        }
        i2 = i2 + 1;
    }
}

/// The combined shift reads only each entry's key reference, its deltas and
/// the referenced key's pressed flag; two configurations that agree on those
/// have the same totals.
pub proof fn lemma_total_shift_same(
    d0: Seq<DpadKey>,
    k0: Seq<Key>,
    d1: Seq<DpadKey>,
    k1: Seq<Key>,
)
    requires
        d1.len() == d0.len(),
        forall|i: int|
            0 <= i < d0.len() ==> (#[trigger] d1[i]).key_id == d0[i].key_id
                && d1[i].pressed_x_shift == d0[i].pressed_x_shift && d1[i].pressed_y_shift
                == d0[i].pressed_y_shift,
        forall|i: int|
            0 <= i < d0.len() ==> k1[(#[trigger] d0[i]).key_id as int].pressed
                == k0[d0[i].key_id as int].pressed,
    ensures
        total_shift_x(d1, k1) == total_shift_x(d0, k0),
        total_shift_y(d1, k1) == total_shift_y(d0, k0),
    decreases d0.len(),
{
    if d0.len() > 0 {
        assert(forall|i: int|
            0 <= i < d0.drop_last().len() ==> d0.drop_last()[i] == d0[i] && d1.drop_last()[i]
                == d1[i]);
        lemma_total_shift_same(d0.drop_last(), k0, d1.drop_last(), k1);
    }
}

/// Recomputing an already recomputed pad changes nothing: with no key press
/// in between, the totals come out the same, every arrow keeps its flags and
/// shifts, and every key keeps its length state.  The recompute — and with
/// it the frame redraw's state change — is idempotent.
pub proof fn lemma_recompute_idempotent(
    d0: Seq<DpadKey>,
    k0: Seq<Key>,
    d1: Seq<DpadKey>,
    k1: Seq<Key>,
    d2: Seq<DpadKey>,
    k2: Seq<Key>,
)
    requires
        dpad_config_ok(d0, k0),
        dpads_recomputed(d0, k0, d1),
        keys_recomputed(d0, k0, k1),
        dpads_recomputed(d1, k1, d2),
        keys_recomputed(d1, k1, k2),
    ensures
        d2 == d1,
        k2 == k1,
{
    let tx0 = total_shift_x(d0, k0);
    let ty0 = total_shift_y(d0, k0);
    assert forall|i: int| 0 <= i < d0.len() implies k1[(#[trigger] d0[i]).key_id as int].pressed
        == k0[d0[i].key_id as int].pressed by {
        assert(dpad_covers(d0, d0.len() as int, d0[i].key_id as int));
        assert(key_recomputed(k0[d0[i].key_id as int], k1[d0[i].key_id as int], ty0));
    }
    lemma_total_shift_same(d0, k0, d1, k1);
    let tx1 = total_shift_x(d1, k1);
    let ty1 = total_shift_y(d1, k1);

    assert forall|i: int| 0 <= i < d1.len() implies #[trigger] d2[i] == d1[i] by {
        assert(dpad_entry_recomputed(d0[i], d1[i], k0[d0[i].key_id as int].pressed, tx0, ty0));
        assert(dpad_entry_recomputed(d1[i], d2[i], k1[d1[i].key_id as int].pressed, tx1, ty1));
    }
    assert(d2 =~= d1);

    assert forall|k: int| 0 <= k < k1.len() implies #[trigger] k2[k] == k1[k] by {
        assert(dpad_covers(d1, d1.len() as int, k) == dpad_covers(d0, d0.len() as int, k)) by {
            if dpad_covers(d1, d1.len() as int, k) {
                let i = choose|i: int| 0 <= i < d1.len() && (#[trigger] d1[i]).key_id == k;
                assert(d0[i].key_id == k);
            }
            if dpad_covers(d0, d0.len() as int, k) {
                let i = choose|i: int| 0 <= i < d0.len() && (#[trigger] d0[i]).key_id == k;
                assert(dpad_entry_recomputed(d0[i], d1[i], k0[d0[i].key_id as int].pressed, tx0, ty0));
                assert(d1[i].key_id == k);
            }
        }
        if dpad_covers(d0, d0.len() as int, k) {
            assert(key_recomputed(k0[k], k1[k], ty0));
            assert(key_recomputed(k1[k], k2[k], ty1));
        }
    }
    assert(k2 =~= k1);
}

/// After any recompute no key carries both length deformations, and a
/// pressed key carries neither: the recompute establishes this for every key
/// the pad covers and preserves it for every key it leaves alone.
pub proof fn lemma_recompute_length_state_ok(
    dpads0: Seq<DpadKey>,
    keys0: Seq<Key>,
    keys1: Seq<Key>,
)
    requires
        keys_recomputed(dpads0, keys0, keys1),
        forall|k: int|
            0 <= k < keys0.len() && !dpad_covers(dpads0, dpads0.len() as int, k)
                ==> length_state_ok(#[trigger] keys0[k]),
    ensures
        forall|k: int| 0 <= k < keys1.len() ==> length_state_ok(#[trigger] keys1[k]),
{
    assert forall|k: int| 0 <= k < keys1.len() implies length_state_ok(keys1[k]) by {
        if !dpad_covers(dpads0, dpads0.len() as int, k) {
            assert(keys1[k] == keys0[k]);
        }
    }
}

} // verus!
