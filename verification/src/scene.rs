//! The fixed overlay scene: layout constants, the standard key and
//! directional-pad configuration, and the frame recompute-and-redraw that
//! runs after every input event.

use vstd::prelude::*;
use vstd::string::StringExecFns;

use crate::dpad::DpadKey;
use crate::dpad::dpad_config_ok;
use crate::dpad::dpads_recomputed;
use crate::dpad::keys_recomputed;
use crate::dpad::key_recomputed;
use crate::dpad::dpad_entry_recomputed;
use crate::dpad::dpad_covers;
use crate::dpad::lemma_total_shift_bounds;
use crate::dpad::update_dpad;
use crate::gfx::cleared;
use crate::gfx::lemma_blit_ok_same_dims;
use crate::gfx::lemma_blit_preserves_fourth_byte;
use crate::gfx::lemma_text_preserves_fourth_byte;
use crate::gfx::lemma_text_progress_same_dims;
use crate::gfx::pixel_byte;
use crate::gfx::sprite_drawn;
use crate::gfx::subsprite_drawn;
use crate::gfx::text_progress;
use crate::gfx::sprite_src_x;
use crate::gfx::sprite_src_y;
use crate::gfx::BackBuffer;
use crate::gfx::SpriteSheet;
use crate::key::Key;
use crate::palette::Color;
use crate::palette::Palette;

verus! {

/// Side of one key sprite in pixels.
pub const KEY_SIZE: i32 = 34;

/// Side of one arrow sprite in pixels.
pub const ARROW_SIZE: i32 = 14;

/// Side of one font glyph in pixels.
pub const CHARACTER_SIZE: i32 = 16;

/// Width of the overlay surface: nine key columns.
pub const WIDTH: i32 = KEY_SIZE * 9;

/// Height of the overlay surface: eight key rows.
pub const HEIGHT: i32 = KEY_SIZE * 8;

/// Indices of the directional keys and of the power key in the standard
/// layout.
pub const UP: usize = 0;

pub const DOWN: usize = 1;

pub const LEFT: usize = 2;

pub const RIGHT: usize = 3;

pub const POWER: usize = 8;

/// Initial state of one key of the standard layout: no bindings yet, anchor
/// at (x, y), base sprite `sprite_id`, and every state flag clear.
pub open spec fn key_init(k: Key, x: int, y: int, sprite_id: int) -> bool {
    &&& k.primary_input_code == 0
    &&& k.secondary_input_code == 0
    &&& k.x == x
    &&& k.y == y
    &&& k.sprite_id == sprite_id
    &&& !k.pressed
    &&& !k.contracted
    &&& !k.elongated
}

/// One entry of the standard pad configuration.
pub open spec fn dpad_init(
    d: DpadKey,
    key_id: int,
    sx: int,
    sy: int,
    ox_src: int,
    oy_src: int,
    ox_dest: int,
    oy_dest: int,
    ow: int,
    oh: int,
    ax: int,
    ay: int,
) -> bool {
    &&& d.key_id == key_id
    &&& d.pressed_x_shift == sx
    &&& d.pressed_y_shift == sy
    &&& d.overhang.x_src == ox_src
    &&& d.overhang.y_src == oy_src
    &&& d.overhang.x_dest == ox_dest
    &&& d.overhang.y_dest == oy_dest
    &&& d.overhang.width == ow
    &&& d.overhang.height == oh
    &&& d.arrow.idx == key_id
    &&& !d.arrow.pressed
    &&& d.arrow.key_x_offset == ax
    &&& d.arrow.key_y_offset == ay
    &&& d.arrow.current_x_shift == 0
    &&& d.arrow.current_y_shift == 0
}

fn init_key(name: &str, x: i32, y: i32, sprite_id: i32) -> (k: Key)
    ensures
        key_init(k, x as int, y as int, sprite_id as int),
        k.name@ == name@,
{
    Key {
        primary_input_code: 0,
        secondary_input_code: 0,
        name: String::from_str(name),
        x: x,
        y: y,
        sprite_id: sprite_id,
        pressed: false,
        contracted: false,
        elongated: false,
    }
}

/// The nine keys of the standard layout, with their fixed anchor positions
/// (in pixels) and base sprites, nothing pressed and nothing bound yet.
pub fn standard_keys() -> (keys: Vec<Key>)
    ensures
        keys@.len() == 9,
        key_init(keys@[0], 68, 68, 5),
        key_init(keys@[1], 68, 136, 6),
        key_init(keys@[2], 34, 102, 7),
        key_init(keys@[3], 102, 102, 8),
        key_init(keys@[4], 119, 204, 2),
        key_init(keys@[5], 153, 204, 3),
        key_init(keys@[6], 187, 136, 1),
        key_init(keys@[7], 238, 102, 0),
        key_init(keys@[8], 238, 28, 4),
        keys@[0].name@ == "UP"@,
        keys@[1].name@ == "DOWN"@,
        keys@[2].name@ == "LEFT"@,
        keys@[3].name@ == "RIGHT"@,
        keys@[4].name@ == "SELECT"@,
        keys@[5].name@ == "START"@,
        keys@[6].name@ == "B"@,
        keys@[7].name@ == "A"@,
        keys@[8].name@ == "POWER"@,
{
    let mut keys: Vec<Key> = Vec::new();
    keys.push(init_key("UP", 2 * KEY_SIZE, 2 * KEY_SIZE, 5));
    keys.push(init_key("DOWN", 2 * KEY_SIZE, 4 * KEY_SIZE, 6));
    keys.push(init_key("LEFT", KEY_SIZE, 3 * KEY_SIZE, 7));
    keys.push(init_key("RIGHT", 3 * KEY_SIZE, 3 * KEY_SIZE, 8));
    keys.push(init_key("SELECT", 3 * KEY_SIZE + KEY_SIZE / 2, 6 * KEY_SIZE, 2));
    keys.push(init_key("START", 4 * KEY_SIZE + KEY_SIZE / 2, 6 * KEY_SIZE, 3));
    keys.push(init_key("B", 5 * KEY_SIZE + KEY_SIZE / 2, 4 * KEY_SIZE, 1));
    keys.push(init_key("A", 7 * KEY_SIZE, 3 * KEY_SIZE, 0));
    keys.push(init_key("POWER", 7 * KEY_SIZE, KEY_SIZE - 6, 4));
    keys
}

/// The standard pad configuration: one entry per direction, each shifting
/// the arrows two pixels its way while pressed, with the overhang fragment
/// that redraws the key edge facing away from the pad's centre.
pub fn standard_dpad() -> (dpads: Vec<DpadKey>)
    ensures
        dpads@.len() == 4,
        dpad_init(dpads@[0], 0, 0, -2, 2, 32, 2, 34, 30, 2, 10, 8),
        dpad_init(dpads@[1], 1, 0, 2, 2, 0, 2, -2, 30, 2, 10, 6),
        dpad_init(dpads@[2], 2, -2, 0, 32, 2, 34, 2, 2, 30, 8, 7),
        dpad_init(dpads@[3], 3, 2, 0, 0, 2, -2, 2, 2, 30, 12, 7),
{
    let mut dpads: Vec<DpadKey> = Vec::new();
    dpads.push(DpadKey::new(UP, 0, -2, 2, KEY_SIZE - 2, 2, KEY_SIZE, KEY_SIZE - 4, 2, 10, 8));
    dpads.push(DpadKey::new(DOWN, 0, 2, 2, 0, 2, -2, KEY_SIZE - 4, 2, 10, 6));
    dpads.push(DpadKey::new(LEFT, -2, 0, KEY_SIZE - 2, 2, KEY_SIZE, 2, 2, KEY_SIZE - 4, 8, 7));
    dpads.push(DpadKey::new(RIGHT, 2, 0, 0, 2, -2, 2, 2, KEY_SIZE - 4, 12, 7));
    dpads
}

/// The row on which the status text sits: the bottom key row, with the
/// glyphs centred vertically inside it (9 pixels is half the difference
/// between the key size and the glyph size).
pub const TEXT_ROW_Y: i32 = 7 * KEY_SIZE + 9;

/// Where a text of `n` characters starts: centred on the surface width.
pub open spec fn text_anchor_x(n: int) -> int {
    (WIDTH - n * CHARACTER_SIZE) / 2
}

/// The key layer of a frame: mems[j] is the surface before key j's sprite
/// variant is drawn at the key's anchor, mems[keys.len()] the surface after
/// the last.
pub open spec fn key_sprites_drawn(
    mems: Seq<Seq<u8>>,
    surf: BackBuffer,
    pal: Seq<Color>,
    keyset: SpriteSheet,
    keys: Seq<Key>,
) -> bool {
    &&& mems.len() == keys.len() + 1
    &&& forall|j: int|
        0 <= j < keys.len() ==> sprite_drawn(
            #[trigger] mems[j],
            mems[j + 1],
            surf,
            pal,
            keyset,
            keys[j].x as int,
            keys[j].y as int,
            keys[j].spec_sprite_index(),
        )
}

/// The pad layer of a frame: for each entry, first its arrow at the key's
/// anchor offset by the fixed arrow offset plus the shared animated shift,
/// then its overhang fragment; mids[j] is the surface between the two.
pub open spec fn dpad_sprites_drawn(
    mems: Seq<Seq<u8>>,
    mids: Seq<Seq<u8>>,
    surf: BackBuffer,
    pal: Seq<Color>,
    keyset: SpriteSheet,
    arrowset: SpriteSheet,
    keys: Seq<Key>,
    dpads: Seq<DpadKey>,
) -> bool {
    &&& mems.len() == dpads.len() + 1
    &&& mids.len() == dpads.len()
    &&& forall|j: int|
        0 <= j < dpads.len() ==> {
            let d = dpads[j];
            let k = keys[d.key_id as int];
            &&& sprite_drawn(
                mems[j],
                #[trigger] mids[j],
                surf,
                pal,
                arrowset,
                k.x + d.arrow.key_x_offset + d.arrow.current_x_shift,
                k.y + d.arrow.key_y_offset + d.arrow.current_y_shift,
                d.arrow.spec_sprite_index(),
            )
            &&& subsprite_drawn(
                mids[j],
                mems[j + 1],
                surf,
                pal,
                keyset,
                k.x + d.overhang.x_dest,
                k.y + d.overhang.y_dest,
                k.spec_sprite_index(),
                d.overhang.x_src as int,
                d.overhang.y_src as int,
                d.overhang.width as int,
                d.overhang.height as int,
            )
        }
}

/// One frame, drawn through the given intermediate surfaces: the clear to
/// the frame-clear color (palette index 4), the key sprites in order, the
/// spare sprite one key height below the up key, each direction's arrow and
/// overhang, and finally the status text centred on the bottom row.  Every
/// step either applies its exact blit or, where it would go out of range,
/// changes nothing.
pub open spec fn frame_chain(
    kms: Seq<Seq<u8>>,
    spare: Seq<u8>,
    ams: Seq<Seq<u8>>,
    mids: Seq<Seq<u8>>,
    m_in: Seq<u8>,
    m_out: Seq<u8>,
    surf: BackBuffer,
    pal: Seq<Color>,
    keyset: SpriteSheet,
    arrowset: SpriteSheet,
    font: SpriteSheet,
    keys: Seq<Key>,
    dpads: Seq<DpadKey>,
    text: Seq<char>,
) -> bool {
    &&& kms.len() == keys.len() + 1
    &&& cleared(m_in, kms[0], surf.width as int, surf.height as int, pal[4])
    &&& key_sprites_drawn(kms, surf, pal, keyset, keys)
    &&& sprite_drawn(
        kms.last(),
        spare,
        surf,
        pal,
        keyset,
        keys[UP as int].x as int,
        keys[UP as int].y + KEY_SIZE,
        32,
    )
    &&& ams.len() == dpads.len() + 1
    &&& ams[0] == spare
    &&& dpad_sprites_drawn(ams, mids, surf, pal, keyset, arrowset, keys, dpads)
    &&& text_progress(
        ams.last(),
        m_out,
        surf,
        pal,
        font,
        text,
        text_anchor_x(text.len() as int),
        TEXT_ROW_Y as int,
        text.len() as int,
    )
}

/// The whole rendered frame: some chain of intermediate surfaces connects
/// the surface before the redraw to the surface after it.  Each link pins
/// every byte of its successor, so the final surface is determined by the
/// starting surface and the scene.
pub open spec fn frame_rendered(
    m_in: Seq<u8>,
    m_out: Seq<u8>,
    surf: BackBuffer,
    pal: Seq<Color>,
    keyset: SpriteSheet,
    arrowset: SpriteSheet,
    font: SpriteSheet,
    keys: Seq<Key>,
    dpads: Seq<DpadKey>,
    text: Seq<char>,
) -> bool {
    exists|kms: Seq<Seq<u8>>, spare: Seq<u8>, ams: Seq<Seq<u8>>, mids: Seq<Seq<u8>>|
        #[trigger] frame_chain(
            kms,
            spare,
            ams,
            mids,
            m_in,
            m_out,
            surf,
            pal,
            keyset,
            arrowset,
            font,
            keys,
            dpads,
            text,
        )
}

/// The key layer is deterministic: two chains over the same keys from the
/// same starting surface run through the same surfaces.
proof fn lemma_key_layer_deterministic(
    a: Seq<Seq<u8>>,
    b: Seq<Seq<u8>>,
    surf: BackBuffer,
    pal: Seq<Color>,
    keyset: SpriteSheet,
    keys: Seq<Key>,
    j: int,
)
    requires
        0 <= surf.width,
        0 <= surf.height,
        key_sprites_drawn(a, surf, pal, keyset, keys),
        key_sprites_drawn(b, surf, pal, keyset, keys),
        a[0] == b[0],
        a[0].len() == 4 * (surf.width as int * surf.height as int),
        0 <= j <= keys.len(),
    ensures
        a[j] == b[j],
        a[j].len() == a[0].len(),
    decreases j,
{
    if j > 0 {
        lemma_key_layer_deterministic(a, b, surf, pal, keyset, keys, j - 1);
        crate::gfx::lemma_subsprite_drawn_deterministic(
            a[j - 1],
            a[j],
            b[j],
            surf,
            pal,
            keyset,
            keys[j - 1].x as int,
            keys[j - 1].y as int,
            keys[j - 1].spec_sprite_index(),
            0,
            0,
            keyset.sprite_width as int,
            keyset.sprite_height as int,
        );
    }
}

/// The pad layer is deterministic: two chains over the same pad from the
/// same starting surface run through the same surfaces.
proof fn lemma_dpad_layer_deterministic(
    am: Seq<Seq<u8>>,
    ai: Seq<Seq<u8>>,
    bm: Seq<Seq<u8>>,
    bi: Seq<Seq<u8>>,
    surf: BackBuffer,
    pal: Seq<Color>,
    keyset: SpriteSheet,
    arrowset: SpriteSheet,
    keys: Seq<Key>,
    dpads: Seq<DpadKey>,
    j: int,
)
    requires
        0 <= surf.width,
        0 <= surf.height,
        dpad_sprites_drawn(am, ai, surf, pal, keyset, arrowset, keys, dpads),
        dpad_sprites_drawn(bm, bi, surf, pal, keyset, arrowset, keys, dpads),
        am[0] == bm[0],
        am[0].len() == 4 * (surf.width as int * surf.height as int),
        0 <= j <= dpads.len(),
    ensures
        am[j] == bm[j],
        am[j].len() == am[0].len(),
    decreases j,
{
    if j > 0 {
        lemma_dpad_layer_deterministic(
            am,
            ai,
            bm,
            bi,
            surf,
            pal,
            keyset,
            arrowset,
            keys,
            dpads,
            j - 1,
        );
        let d = dpads[j - 1];
        let k = keys[d.key_id as int];
        crate::gfx::lemma_subsprite_drawn_deterministic(
            am[j - 1],
            ai[j - 1],
            bi[j - 1],
            surf,
            pal,
            arrowset,
            k.x + d.arrow.key_x_offset + d.arrow.current_x_shift,
            k.y + d.arrow.key_y_offset + d.arrow.current_y_shift,
            d.arrow.spec_sprite_index(),
            0,
            0,
            arrowset.sprite_width as int,
            arrowset.sprite_height as int,
        );
        crate::gfx::lemma_subsprite_drawn_deterministic(
            ai[j - 1],
            am[j],
            bm[j],
            surf,
            pal,
            keyset,
            k.x + d.overhang.x_dest,
            k.y + d.overhang.y_dest,
            k.spec_sprite_index(),
            d.overhang.x_src as int,
            d.overhang.y_src as int,
            d.overhang.width as int,
            d.overhang.height as int,
        );
    }
}

/// A rendered frame is a function of the scene and of what the clear keeps
/// of the starting surface: two frames over the same scene, drawn from
/// surfaces that agree on every fourth pixel byte, come out byte-identical.
pub proof fn lemma_frame_deterministic(
    m1: Seq<u8>,
    m2: Seq<u8>,
    s1: Seq<u8>,
    s2: Seq<u8>,
    surf: BackBuffer,
    pal: Seq<Color>,
    keyset: SpriteSheet,
    arrowset: SpriteSheet,
    font: SpriteSheet,
    keys: Seq<Key>,
    dpads: Seq<DpadKey>,
    text: Seq<char>,
)
    requires
        0 <= surf.width,
        0 <= surf.height,
        font.wf(),
        m1.len() == 4 * (surf.width as int * surf.height as int),
        m2.len() == m1.len(),
        forall|x: int, y: int|
            0 <= x < surf.width && 0 <= y < surf.height ==> #[trigger] pixel_byte(
                m2,
                surf.width as int,
                x,
                y,
                3,
            ) == pixel_byte(m1, surf.width as int, x, y, 3),
        frame_rendered(m1, s1, surf, pal, keyset, arrowset, font, keys, dpads, text),
        frame_rendered(m2, s2, surf, pal, keyset, arrowset, font, keys, dpads, text),
    ensures
        s2 == s1,
{
    let sw = surf.width as int;
    let sh = surf.height as int;
    let (akms, aspare, aams, amids): (Seq<Seq<u8>>, Seq<u8>, Seq<Seq<u8>>, Seq<Seq<u8>>) = choose|
        kms: Seq<Seq<u8>>,
        spare: Seq<u8>,
        ams: Seq<Seq<u8>>,
        mids: Seq<Seq<u8>>,
    |
        frame_chain(
            kms,
            spare,
            ams,
            mids,
            m1,
            s1,
            surf,
            pal,
            keyset,
            arrowset,
            font,
            keys,
            dpads,
            text,
        );
    let (bkms, bspare, bams, bmids): (Seq<Seq<u8>>, Seq<u8>, Seq<Seq<u8>>, Seq<Seq<u8>>) = choose|
        kms: Seq<Seq<u8>>,
        spare: Seq<u8>,
        ams: Seq<Seq<u8>>,
        mids: Seq<Seq<u8>>,
    |
        frame_chain(
            kms,
            spare,
            ams,
            mids,
            m2,
            s2,
            surf,
            pal,
            keyset,
            arrowset,
            font,
            keys,
            dpads,
            text,
        );
    assert forall|x: int, y: int, k: int|
        0 <= x < sw && 0 <= y < sh && 0 <= k < 4 implies #[trigger] pixel_byte(akms[0], sw, x, y, k)
        == pixel_byte(bkms[0], sw, x, y, k) by {
        let va = pixel_byte(akms[0], sw, x, y, k);
        let vb = pixel_byte(bkms[0], sw, x, y, k);
        let w1 = pixel_byte(m1, sw, x, y, k);
        let w2 = pixel_byte(m2, sw, x, y, k);
    }
    crate::gfx::lemma_mem_eq_from_pixels(akms[0], bkms[0], sw, sh);
    let n = keys.len() as int;
    lemma_key_layer_deterministic(akms, bkms, surf, pal, keyset, keys, n);
    assert(akms.last() == akms[n] && bkms.last() == bkms[n]);
    crate::gfx::lemma_subsprite_drawn_deterministic(
        akms[n],
        aspare,
        bspare,
        surf,
        pal,
        keyset,
        keys[UP as int].x as int,
        keys[UP as int].y + KEY_SIZE,
        32,
        0,
        0,
        keyset.sprite_width as int,
        keyset.sprite_height as int,
    );
    let dn = dpads.len() as int;
    lemma_dpad_layer_deterministic(
        aams,
        amids,
        bams,
        bmids,
        surf,
        pal,
        keyset,
        arrowset,
        keys,
        dpads,
        dn,
    );
    assert(aams.last() == aams[dn] && bams.last() == bams[dn]);
    crate::gfx::lemma_text_progress_deterministic(
        aams[dn],
        s1,
        s2,
        surf,
        pal,
        font,
        text,
        text_anchor_x(text.len() as int),
        TEXT_ROW_Y as int,
    );
}

/// Two consecutive frame redraws with no input change in between leave the
/// key and pad state fixed and produce a byte-identical surface: the redraw
/// is complete, synchronous and idempotent.
pub proof fn lemma_redraw_idempotent(
    m0: Seq<u8>,
    s1: Seq<u8>,
    s2: Seq<u8>,
    surf: BackBuffer,
    pal: Seq<Color>,
    keyset: SpriteSheet,
    arrowset: SpriteSheet,
    font: SpriteSheet,
    d0: Seq<DpadKey>,
    k0: Seq<Key>,
    d1: Seq<DpadKey>,
    k1: Seq<Key>,
    d2: Seq<DpadKey>,
    k2: Seq<Key>,
    text: Seq<char>,
)
    requires
        0 <= surf.width,
        0 <= surf.height,
        font.wf(),
        m0.len() == 4 * (surf.width as int * surf.height as int),
        s1.len() == m0.len(),
        dpad_config_ok(d0, k0),
        dpads_recomputed(d0, k0, d1),
        keys_recomputed(d0, k0, k1),
        frame_rendered(m0, s1, surf, pal, keyset, arrowset, font, k1, d1, text),
        forall|x: int, y: int|
            0 <= x < surf.width && 0 <= y < surf.height ==> #[trigger] pixel_byte(
                s1,
                surf.width as int,
                x,
                y,
                3,
            ) == pixel_byte(m0, surf.width as int, x, y, 3),
        dpads_recomputed(d1, k1, d2),
        keys_recomputed(d1, k1, k2),
        frame_rendered(s1, s2, surf, pal, keyset, arrowset, font, k2, d2, text),
    ensures
        d2 == d1,
        k2 == k1,
        s2 == s1,
{
    crate::dpad::lemma_recompute_idempotent(d0, k0, d1, k1, d2, k2);
    lemma_frame_deterministic(
        m0,
        s1,
        s1,
        s2,
        surf,
        pal,
        keyset,
        arrowset,
        font,
        k1,
        d1,
        text,
    );
}

/// Geometry bounds the frame redraw relies on: every key well formed and
/// anchored within a comfortable pixel range, every arrow a valid direction
/// sprite with bounded offsets.
pub open spec fn scene_ok(keys: Seq<Key>, dpads: Seq<DpadKey>) -> bool {
    &&& keys.len() > UP
    &&& forall|i: int|
        0 <= i < keys.len() ==> (#[trigger] keys[i]).wf() && -0x100000 <= keys[i].x <= 0x100000
            && -0x100000 <= keys[i].y <= 0x100000
    &&& forall|i: int|
        0 <= i < dpads.len() ==> 0 <= (#[trigger] dpads[i]).arrow.idx < 4 && -0x100000 <= dpads[i].arrow.key_x_offset
            <= 0x100000 && -0x100000 <= dpads[i].arrow.key_y_offset <= 0x100000 && -0x100000
            <= dpads[i].overhang.x_dest <= 0x100000 && -0x100000 <= dpads[i].overhang.y_dest
            <= 0x100000
}

/// Bound on the animated shifts the recompute writes into every arrow.
pub open spec fn shifts_bounded(dpads: Seq<DpadKey>) -> bool {
    forall|i: int|
        0 <= i < dpads.len() ==> -0x40000000 <= (#[trigger] dpads[i]).arrow.current_x_shift
            <= 0x40000000 && -0x40000000 <= dpads[i].arrow.current_y_shift <= 0x40000000
}

/// One full frame: recomputes the pad state, clears the surface to the
/// frame-clear color (palette index 4), draws every key's sprite variant,
/// the spare sprite below the up key, each direction's arrow and overhang
/// fragment, and the status text centred on the bottom row.  A draw that
/// would go out of range is skipped; the frame never fails.
pub fn draw_background(
    buffer: &mut BackBuffer,
    palette: &Palette,
    keyset: &SpriteSheet,
    arrowset: &SpriteSheet,
    font: &SpriteSheet,
    keys: &mut Vec<Key>,
    dpads: &mut Vec<DpadKey>,
    text: &str,
)
    requires
        old(buffer).wf(),
        keyset.wf(),
        arrowset.wf(),
        font.wf(),
        font.sprite_width <= 0x10000,
        palette@.len() >= 5,
        dpad_config_ok(old(dpads)@, old(keys)@),
        scene_ok(old(keys)@, old(dpads)@),
        text@.len() <= 4096,
    ensures
        final(buffer).wf(),
        final(buffer).width == old(buffer).width,
        final(buffer).height == old(buffer).height,
        final(buffer).info == old(buffer).info,
        dpads_recomputed(old(dpads)@, old(keys)@, final(dpads)@),
        keys_recomputed(old(dpads)@, old(keys)@, final(keys)@),
        forall|x: int, y: int|
            0 <= x < old(buffer).width && 0 <= y < old(buffer).height ==> #[trigger] pixel_byte(
                final(buffer).memory@,
                old(buffer).width as int,
                x,
                y,
                3,
            ) == pixel_byte(old(buffer).memory@, old(buffer).width as int, x, y, 3),
        frame_rendered(
            old(buffer).memory@,
            final(buffer).memory@,
            *old(buffer),
            palette@,
            *keyset,
            *arrowset,
            *font,
            final(keys)@,
            final(dpads)@,
            text@,
        ),
{
    update_dpad(dpads, keys);
    proof {
        lemma_total_shift_bounds(old(dpads)@, old(keys)@);
        assert forall|i: int| 0 <= i < keys@.len() implies (#[trigger] keys@[i]).wf() && -0x100000
            <= keys@[i].x <= 0x100000 && -0x100000 <= keys@[i].y <= 0x100000 by {
            if dpad_covers(old(dpads)@, old(dpads)@.len() as int, i) {
                assert(key_recomputed(
                    old(keys)@[i],
                    keys@[i],
                    crate::dpad::total_shift_y(old(dpads)@, old(keys)@),
                ));
            } else {
                assert(keys@[i] == old(keys)@[i]);
            }
        }
        assert forall|i: int| 0 <= i < dpads@.len() implies 0 <= (#[trigger] dpads@[i]).arrow.idx
            < 4 && -0x100000 <= dpads@[i].arrow.key_x_offset <= 0x100000 && -0x100000
            <= dpads@[i].arrow.key_y_offset <= 0x100000 && -0x100000 <= dpads@[i].overhang.x_dest
            <= 0x100000 && -0x100000 <= dpads@[i].overhang.y_dest <= 0x100000 && -0x40000000
            <= dpads@[i].arrow.current_x_shift <= 0x40000000 && -0x40000000
            <= dpads@[i].arrow.current_y_shift <= 0x40000000 && dpads@[i].key_id
            < keys@.len() by {
            assert(dpad_entry_recomputed(
                old(dpads)@[i],
                dpads@[i],
                old(keys)@[old(dpads)@[i].key_id as int].pressed,
                crate::dpad::total_shift_x(old(dpads)@, old(keys)@),
                crate::dpad::total_shift_y(old(dpads)@, old(keys)@),
            ));
            assert(0 <= (old(dpads)@[i]).arrow.idx < 4);
        }
        assert(scene_ok(keys@, dpads@));
        assert(shifts_bounded(dpads@));
    }
    let ghost keys1 = keys@;
    let ghost dpads1 = dpads@;
    let ghost surf0 = *old(buffer);

    let ghost bw = old(buffer).width as int;
    let ghost bh = old(buffer).height as int;
    let ghost m0 = buffer.memory@;
    let bg = palette[4];
    buffer.clear(bg);
    proof {
        assert forall|x: int, y: int| 0 <= x < bw && 0 <= y < bh implies #[trigger] pixel_byte(
            buffer.memory@,
            bw,
            x,
            y,
            3,
        ) == pixel_byte(m0, bw, x, y, 3) by {
        }
    }
    let ghost m_clear = buffer.memory@;
    let ghost mut kms: Seq<Seq<u8>> = seq![m_clear];
    proof {
        assert(cleared(m0, m_clear, bw, bh, palette@[4]));
    }

    let n = keys.len();
    let mut i: usize = 0;
    while i < n
        invariant
            0 <= i <= n,
            n == keys@.len(),
            keys@ == keys1,
            dpads@ == dpads1,
            scene_ok(keys1, dpads1),
            keyset.wf(),
            buffer.wf(),
            buffer.width == old(buffer).width,
            buffer.height == old(buffer).height,
            buffer.info == old(buffer).info,
            bw == old(buffer).width as int,
            bh == old(buffer).height as int,
            m0 == old(buffer).memory@,
            surf0 == *old(buffer),
            kms.len() == i + 1,
            kms[0] == m_clear,
            kms[i as int] == buffer.memory@,
            forall|j: int|
                0 <= j < i ==> sprite_drawn(
                    #[trigger] kms[j],
                    kms[j + 1],
                    surf0,
                    palette@,
                    *keyset,
                    keys1[j].x as int,
                    keys1[j].y as int,
                    keys1[j].spec_sprite_index(),
                ),
            forall|x: int, y: int|
                0 <= x < bw && 0 <= y < bh ==> #[trigger] pixel_byte(buffer.memory@, bw, x, y, 3)
                    == pixel_byte(m0, bw, x, y, 3),
        decreases n - i,
    {
        let kx = keys[i].x;
        let ky = keys[i].y;
        let si = keys[i].sprite_index();
        let ghost mprev = buffer.memory@;
        let ghost bprev = *buffer;
        let r = buffer.draw_sprite(palette, keyset, kx, ky, si);
        proof {
            lemma_blit_ok_same_dims(
                bprev,
                surf0,
                palette@,
                keyset.bitmap,
                kx as int,
                ky as int,
                sprite_src_x(*keyset, si as int, 0),
                sprite_src_y(*keyset, si as int, 0),
                keyset.sprite_width as int,
                keyset.sprite_height as int,
            );
            if r is Ok {
                lemma_blit_preserves_fourth_byte(
                    mprev,
                    buffer.memory@,
                    bw,
                    bh,
                    palette@,
                    keyset.bitmap,
                    kx as int,
                    ky as int,
                    sprite_src_x(*keyset, si as int, 0),
                    sprite_src_y(*keyset, si as int, 0),
                    keyset.sprite_width as int,
                    keyset.sprite_height as int,
                );
            }
            assert(sprite_drawn(
                mprev,
                buffer.memory@,
                surf0,
                palette@,
                *keyset,
                kx as int,
                ky as int,
                si as int,
            ));
            assert forall|x: int, y: int| 0 <= x < bw && 0 <= y < bh implies #[trigger] pixel_byte(
                buffer.memory@,
                bw,
                x,
                y,
                3,
            ) == pixel_byte(m0, bw, x, y, 3) by {
                let p = pixel_byte(mprev, bw, x, y, 3);
            }
            kms = kms.push(buffer.memory@);
            assert(kms[i as int] == mprev && kms[i as int + 1] == buffer.memory@);
        }
        i = i + 1;
    }

    let up_x = keys[UP].x;
    let up_y = keys[UP].y;
    let ghost m_spare = buffer.memory@;
    let ghost b_spare = *buffer;
    let r_spare = buffer.draw_sprite(palette, keyset, up_x, up_y + KEY_SIZE, 32);
    proof {
        lemma_blit_ok_same_dims(
            b_spare,
            surf0,
            palette@,
            keyset.bitmap,
            up_x as int,
            up_y + KEY_SIZE,
            sprite_src_x(*keyset, 32, 0),
            sprite_src_y(*keyset, 32, 0),
            keyset.sprite_width as int,
            keyset.sprite_height as int,
        );
        if r_spare is Ok {
            lemma_blit_preserves_fourth_byte(
                m_spare,
                buffer.memory@,
                bw,
                bh,
                palette@,
                keyset.bitmap,
                up_x as int,
                up_y + KEY_SIZE,
                sprite_src_x(*keyset, 32, 0),
                sprite_src_y(*keyset, 32, 0),
                keyset.sprite_width as int,
                keyset.sprite_height as int,
            );
        }
        assert(sprite_drawn(
            m_spare,
            buffer.memory@,
            surf0,
            palette@,
            *keyset,
            up_x as int,
            up_y + KEY_SIZE,
            32,
        ));
        assert forall|x: int, y: int| 0 <= x < bw && 0 <= y < bh implies #[trigger] pixel_byte(
            buffer.memory@,
            bw,
            x,
            y,
            3,
        ) == pixel_byte(m0, bw, x, y, 3) by {
            let p = pixel_byte(m_spare, bw, x, y, 3);
        }
    }
    let ghost spare_mem = buffer.memory@;
    let ghost mut ams: Seq<Seq<u8>> = seq![spare_mem];
    let ghost mut mids: Seq<Seq<u8>> = Seq::empty();

    let dn = dpads.len();
    let mut di: usize = 0;
    while di < dn
        invariant
            0 <= di <= dn,
            dn == dpads@.len(),
            keys@ == keys1,
            dpads@ == dpads1,
            scene_ok(keys1, dpads1),
            shifts_bounded(dpads1),
            forall|t: int| 0 <= t < dpads1.len() ==> (#[trigger] dpads1[t]).key_id < keys1.len(),
            keyset.wf(),
            arrowset.wf(),
            buffer.wf(),
            buffer.width == old(buffer).width,
            buffer.height == old(buffer).height,
            buffer.info == old(buffer).info,
            bw == old(buffer).width as int,
            bh == old(buffer).height as int,
            m0 == old(buffer).memory@,
            surf0 == *old(buffer),
            ams.len() == di + 1,
            mids.len() == di,
            ams[0] == spare_mem,
            ams[di as int] == buffer.memory@,
            forall|j: int|
                0 <= j < di ==> sprite_drawn(
                    ams[j],
                    #[trigger] mids[j],
                    surf0,
                    palette@,
                    *arrowset,
                    keys1[dpads1[j].key_id as int].x + dpads1[j].arrow.key_x_offset
                        + dpads1[j].arrow.current_x_shift,
                    keys1[dpads1[j].key_id as int].y + dpads1[j].arrow.key_y_offset
                        + dpads1[j].arrow.current_y_shift,
                    dpads1[j].arrow.spec_sprite_index(),
                ) && subsprite_drawn(
                    mids[j],
                    ams[j + 1],
                    surf0,
                    palette@,
                    *keyset,
                    keys1[dpads1[j].key_id as int].x + dpads1[j].overhang.x_dest,
                    keys1[dpads1[j].key_id as int].y + dpads1[j].overhang.y_dest,
                    keys1[dpads1[j].key_id as int].spec_sprite_index(),
                    dpads1[j].overhang.x_src as int,
                    dpads1[j].overhang.y_src as int,
                    dpads1[j].overhang.width as int,
                    dpads1[j].overhang.height as int,
                ),
            forall|x: int, y: int|
                0 <= x < bw && 0 <= y < bh ==> #[trigger] pixel_byte(buffer.memory@, bw, x, y, 3)
                    == pixel_byte(m0, bw, x, y, 3),
        decreases dn - di,
    {
        let d = dpads[di];
        let kid = d.key_id;
        let kx = keys[kid].x;
        let ky = keys[kid].y;
        let asi = d.arrow.sprite_index();
        let ax = kx + d.arrow.key_x_offset + d.arrow.current_x_shift;
        let ay = ky + d.arrow.key_y_offset + d.arrow.current_y_shift;
        let ghost m_arrow = buffer.memory@;
        let ghost b_arrow = *buffer;
        let r_arrow = buffer.draw_sprite(palette, arrowset, ax, ay, asi);
        proof {
            lemma_blit_ok_same_dims(
                b_arrow,
                surf0,
                palette@,
                arrowset.bitmap,
                ax as int,
                ay as int,
                sprite_src_x(*arrowset, asi as int, 0),
                sprite_src_y(*arrowset, asi as int, 0),
                arrowset.sprite_width as int,
                arrowset.sprite_height as int,
            );
            if r_arrow is Ok {
                lemma_blit_preserves_fourth_byte(
                    m_arrow,
                    buffer.memory@,
                    bw,
                    bh,
                    palette@,
                    arrowset.bitmap,
                    ax as int,
                    ay as int,
                    sprite_src_x(*arrowset, asi as int, 0),
                    sprite_src_y(*arrowset, asi as int, 0),
                    arrowset.sprite_width as int,
                    arrowset.sprite_height as int,
                );
            }
            assert(sprite_drawn(
                m_arrow,
                buffer.memory@,
                surf0,
                palette@,
                *arrowset,
                ax as int,
                ay as int,
                asi as int,
            ));
            assert forall|x: int, y: int| 0 <= x < bw && 0 <= y < bh implies #[trigger] pixel_byte(
                buffer.memory@,
                bw,
                x,
                y,
                3,
            ) == pixel_byte(m0, bw, x, y, 3) by {
                let p = pixel_byte(m_arrow, bw, x, y, 3);
            }
            mids = mids.push(buffer.memory@);
        }
        let ksi = keys[kid].sprite_index();
        let ghost m_over = buffer.memory@;
        let ghost b_over = *buffer;
        let r_over = buffer.draw_subsprite(
            palette,
            keyset,
            kx + d.overhang.x_dest,
            ky + d.overhang.y_dest,
            ksi,
            d.overhang.x_src,
            d.overhang.y_src,
            d.overhang.width,
            d.overhang.height,
        );
        proof {
            lemma_blit_ok_same_dims(
                b_over,
                surf0,
                palette@,
                keyset.bitmap,
                kx + d.overhang.x_dest,
                ky + d.overhang.y_dest,
                sprite_src_x(*keyset, ksi as int, d.overhang.x_src as int),
                sprite_src_y(*keyset, ksi as int, d.overhang.y_src as int),
                d.overhang.width as int,
                d.overhang.height as int,
            );
            if r_over is Ok {
                lemma_blit_preserves_fourth_byte(
                    m_over,
                    buffer.memory@,
                    bw,
                    bh,
                    palette@,
                    keyset.bitmap,
                    kx + d.overhang.x_dest,
                    ky + d.overhang.y_dest,
                    sprite_src_x(*keyset, ksi as int, d.overhang.x_src as int),
                    sprite_src_y(*keyset, ksi as int, d.overhang.y_src as int),
                    d.overhang.width as int,
                    d.overhang.height as int,
                );
            }
            assert(subsprite_drawn(
                m_over,
                buffer.memory@,
                surf0,
                palette@,
                *keyset,
                kx + d.overhang.x_dest,
                ky + d.overhang.y_dest,
                ksi as int,
                d.overhang.x_src as int,
                d.overhang.y_src as int,
                d.overhang.width as int,
                d.overhang.height as int,
            ));
            assert forall|x: int, y: int| 0 <= x < bw && 0 <= y < bh implies #[trigger] pixel_byte(
                buffer.memory@,
                bw,
                x,
                y,
                3,
            ) == pixel_byte(m0, bw, x, y, 3) by {
                let p = pixel_byte(m_over, bw, x, y, 3);
            }
            ams = ams.push(buffer.memory@);
            assert(mids[di as int] == m_over && ams[di as int] == m_arrow && ams[di as int + 1]
                == buffer.memory@);
        }
        di = di + 1;
    }

    let tn = text.unicode_len();
    let tw = (tn as i32) * CHARACTER_SIZE;
    let tx0: i32 = if tw <= WIDTH {
        (WIDTH - tw) / 2
    } else {
        -((tw - WIDTH) / 2)
    };
    let ty0 = TEXT_ROW_Y;
    proof {
        assert(text@.len() * (font.sprite_width as int) <= 0x10000000) by (nonlinear_arith)
            requires
                text@.len() <= 4096,
                0 < font.sprite_width as int <= 0x10000,
        ;
        let nn = text@.len() as int;
        let m = 153 - 8 * nn;
        assert(WIDTH - nn * CHARACTER_SIZE == 2 * m);
        vstd::arithmetic::div_mod::lemma_div_multiples_vanish(m, 2);
        vstd::arithmetic::div_mod::lemma_div_multiples_vanish(-m, 2);
        assert(text_anchor_x(nn) == m);
        assert(tx0 == m);
    }
    let ghost m_text = buffer.memory@;
    let ghost surf_before_text = *buffer;
    buffer.draw_text(palette, font, text, tx0, ty0);
    proof {
        lemma_text_preserves_fourth_byte(
            m_text,
            buffer.memory@,
            surf_before_text,
            palette@,
            *font,
            text@,
            tx0 as int,
            ty0 as int,
        );
        assert forall|x: int, y: int| 0 <= x < bw && 0 <= y < bh implies #[trigger] pixel_byte(
            buffer.memory@,
            bw,
            x,
            y,
            3,
        ) == pixel_byte(old(buffer).memory@, bw, x, y, 3) by {
            let p = pixel_byte(m_text, bw, x, y, 3);
        }
        lemma_text_progress_same_dims(
            m_text,
            buffer.memory@,
            surf_before_text,
            surf0,
            palette@,
            *font,
            text@,
            tx0 as int,
            ty0 as int,
            text@.len() as int,
        );
        assert(kms.last() == kms[keys1.len() as int]);
        assert(ams.last() == ams[dpads1.len() as int]);
        assert(frame_chain(
            kms,
            spare_mem,
            ams,
            mids,
            m0,
            buffer.memory@,
            surf0,
            palette@,
            *keyset,
            *arrowset,
            *font,
            keys1,
            dpads1,
            text@,
        ));
        assert(frame_rendered(
            m0,
            buffer.memory@,
            surf0,
            palette@,
            *keyset,
            *arrowset,
            *font,
            keys1,
            dpads1,
            text@,
        ));
    }
}

} // verus!
