//! The escape sequences that keep the terminal's own background in step with the theme.
//!
//! OSC 11 sets the terminal emulator's default background (some terminals also paint the
//! padding around the cell grid with it); OSC 111 restores the configured one.  Both end
//! with ST, an ESC byte followed by `\`.
use vstd::prelude::*;

verus! {

/// The ASCII lower-case hexadecimal digit of `n` (below 16).
pub open spec fn hex_digit(n: int) -> u8 {
    if n < 10 {
        (0x30 + n) as u8
    } else {
        (0x61 + n - 10) as u8
    }
}

/// The two hexadecimal digits of a byte.
pub open spec fn hex_byte(b: u8) -> Seq<u8> {
    seq![hex_digit(b as int / 16), hex_digit(b as int % 16)]
}

/// `ESC ] 11 ; # rrggbb ESC \`: sets the terminal background to a colour.
pub open spec fn set_background_sequence(rgb: (u8, u8, u8)) -> Seq<u8> {
    seq![0x1bu8, 0x5du8, 0x31u8, 0x31u8, 0x3bu8, 0x23u8] + hex_byte(rgb.0) + hex_byte(rgb.1)
        + hex_byte(rgb.2) + seq![0x1bu8, 0x5cu8]
}

/// `ESC ] 111 ESC \`: restores the terminal's own background.
pub open spec fn reset_background_sequence() -> Seq<u8> {
    seq![0x1bu8, 0x5du8, 0x31u8, 0x31u8, 0x31u8, 0x1bu8, 0x5cu8]
}

/// What to write to bring the terminal background from `current` (the colour set earlier, if
/// any) to `wanted`, and the colour set afterwards.
pub open spec fn background_update_spec(wanted: Option<(u8, u8, u8)>, current: Option<(u8, u8, u8)>) -> (
    Seq<u8>,
    Option<(u8, u8, u8)>,
) {
    match wanted {
        None => if current is Some {
            (reset_background_sequence(), None)
        } else {
            (Seq::empty(), None)
        },
        Some(rgb) => if current == Some(rgb) {
            (Seq::empty(), current)
        } else {
            (set_background_sequence(rgb), Some(rgb))
        },
    }
}

fn push_hex_byte(out: &mut Vec<u8>, b: u8)
    ensures
        final(out)@ == old(out)@ + hex_byte(b),
{
    let hi = b / 16;
    let lo = b % 16;
    out.push(if hi < 10 { 0x30 + hi } else { 0x61 + hi - 10 });
    out.push(if lo < 10 { 0x30 + lo } else { 0x61 + lo - 10 });
}

/// The bytes that bring the terminal background from `current` to `wanted`, and the colour
/// set afterwards: nothing when it is already right; OSC 111 when no colour is wanted but one
/// was set; OSC 11 with the colour otherwise.
pub fn background_update(wanted: Option<(u8, u8, u8)>, current: Option<(u8, u8, u8)>) -> (r: (
    Vec<u8>,
    Option<(u8, u8, u8)>,
))
    ensures
        (r.0@, r.1) == background_update_spec(wanted, current),
{
    match wanted {
        None => {
            if current.is_some() {
                let out: Vec<u8> = vec![0x1bu8, 0x5du8, 0x31u8, 0x31u8, 0x31u8, 0x1bu8, 0x5cu8];
                assert(out@ =~= reset_background_sequence());
                (out, None)
            } else {
                (Vec::new(), None)
            }
        },
        Some((red, green, blue)) => {
            let same = match current {
                Some((r, g, b)) => r == red && g == green && b == blue,
                None => false,
            };
            if same {
                (Vec::new(), current)
            } else {
                let mut out: Vec<u8> = vec![0x1bu8, 0x5du8, 0x31u8, 0x31u8, 0x3bu8, 0x23u8];
                push_hex_byte(&mut out, red);
                push_hex_byte(&mut out, green);
                push_hex_byte(&mut out, blue);
                out.push(0x1bu8);
                out.push(0x5cu8);
                assert(out@ =~= set_background_sequence((red, green, blue)));
                (out, Some((red, green, blue)))
            }
        },
    }
}


/// The shortest time between two frames, in microseconds.
pub const FRAME_BUDGET_MICROS: u64 = 16_000;

/// How long the event loop waits for input when nothing is to be drawn, in microseconds.
pub const IDLE_POLL_MICROS: u64 = 50_000;

/// Whether to draw now: a frame is wanted and the budget since the last one has passed.
pub fn should_draw(needs_draw: bool, since_last_draw_micros: u64) -> (r: bool)
    ensures
        r == (needs_draw && since_last_draw_micros >= FRAME_BUDGET_MICROS),
{
    needs_draw && since_last_draw_micros >= FRAME_BUDGET_MICROS
}

/// How long to wait for input: until the frame budget runs out when a frame is still
/// wanted, else the idle wait.
pub fn poll_timeout_micros(needs_draw: bool, since_last_draw_micros: u64) -> (r: u64)
    ensures
        r == if needs_draw {
            if since_last_draw_micros < FRAME_BUDGET_MICROS {
                (FRAME_BUDGET_MICROS - since_last_draw_micros) as u64
            } else {
                0
            }
        } else {
            IDLE_POLL_MICROS
        },
{
    if needs_draw {
        FRAME_BUDGET_MICROS.saturating_sub(since_last_draw_micros)
    } else {
        IDLE_POLL_MICROS
    }
}

} // verus!
