//! Colors of the phase timeline: each phase id gets a muted HSL color of its
//! own, the same for every instance of the phase.

use vstd::prelude::*;
use vstd::string::StringSliceAdditionalSpecFns;
use crate::text::{nat_digits, push_char, push_decimal};

verus! {

/// The hash of a phase id's bytes: a fold of `acc * 31 + byte` with
/// wrapping `u32` arithmetic, from zero.
pub open spec fn phase_hash(bytes: Seq<u8>) -> u32
    decreases bytes.len(),
{
    if bytes.len() == 0 {
        0
    } else {
        phase_hash(bytes.drop_last()).wrapping_mul(31).wrapping_add(bytes.last() as u32)
    }
}

/// `hsl(H, S%, L%)` with the numbers in decimal.
pub open spec fn hsl_text(hue: nat, saturation: nat, lightness: nat) -> Seq<char> {
    seq!['h', 's', 'l', '('] + nat_digits(hue) + seq![',', ' '] + nat_digits(saturation) + seq![
        '%',
        ',',
        ' ',
    ] + nat_digits(lightness) + seq!['%', ')']
}

/// The color of a hash: hue `hash % 360`, saturation `25 + hash % 15`,
/// lightness `30 + hash % 10`.
pub open spec fn phase_color_text(hash: u32) -> Seq<char> {
    hsl_text((hash % 360) as nat, (25 + hash % 15) as nat, (30 + hash % 10) as nat)
}

/// Generate a consistent HSL color based on phase_id string.
/// All instances of the same phase type will get the same color.
/// Uses muted colors that blend with the dark UI theme.
pub fn phase_color(phase_id: &str) -> (r: String)
    ensures
        r@ == phase_color_text(phase_hash(phase_id.spec_bytes())),
{
    let bytes = phase_id.as_bytes();
    let n = bytes.len();
    let mut hash: u32 = 0;
    let mut i: usize = 0;
    while i < n
        invariant
            n == bytes@.len(),
            i <= n,
            hash == phase_hash(bytes@.take(i as int)),
        decreases n - i,
    {
        assert(bytes@.take(i + 1).drop_last() =~= bytes@.take(i as int));
        hash = hash.wrapping_mul(31).wrapping_add(bytes[i] as u32);
        i = i + 1;
    }
    assert(bytes@.take(n as int) =~= bytes@);
    let hue = hash % 360;
    // Muted saturation and moderate lightness for subtle distinction
    let sat = 25 + (hash % 15);
    let light = 30 + (hash % 10);
    let mut r = String::new();
    push_char(&mut r, 'h');
    push_char(&mut r, 's');
    push_char(&mut r, 'l');
    push_char(&mut r, '(');
    push_decimal(&mut r, hue as u64);
    push_char(&mut r, ',');
    push_char(&mut r, ' ');
    push_decimal(&mut r, sat as u64);
    push_char(&mut r, '%');
    push_char(&mut r, ',');
    push_char(&mut r, ' ');
    push_decimal(&mut r, light as u64);
    push_char(&mut r, '%');
    push_char(&mut r, ')');
    assert(r@ =~= phase_color_text(hash));
    r
}

/// Every phase color is muted: a hue below 360, a saturation from 25 to 39
/// percent and a lightness from 30 to 39 percent.
pub proof fn law_phase_colors_are_muted(phase_id: Seq<u8>)
    ensures
        exists|hue: nat, saturation: nat, lightness: nat|
            hue < 360 && 25 <= saturation < 40 && 30 <= lightness < 40
                && #[trigger] hsl_text(hue, saturation, lightness) == phase_color_text(
                phase_hash(phase_id),
            ),
{
    let h = phase_hash(phase_id);
    assert(hsl_text((h % 360) as nat, (25 + h % 15) as nat, (30 + h % 10) as nat) == phase_color_text(h));
}

} // verus!
