use baras::timeline::phase_color;

#[test]
fn phase_colors_are_stable_hsl_strings() {
    // "" hashes to 0: hue 0, saturation 25, lightness 30
    assert_eq!(phase_color(""), "hsl(0, 25%, 30%)");
    // "a" hashes to 97
    assert_eq!(phase_color("a"), "hsl(97, 32%, 37%)");
    // "ab" hashes to 97 * 31 + 98 = 3105
    assert_eq!(phase_color("ab"), "hsl(225, 25%, 35%)");
    assert_eq!(phase_color("burn_phase"), phase_color("burn_phase"));
}

#[test]
fn phase_color_wraps_long_ids() {
    let long = "phase_".repeat(40);
    let mut hash: u32 = 0;
    for b in long.bytes() {
        hash = hash.wrapping_mul(31).wrapping_add(b as u32);
    }
    let expected = format!("hsl({}, {}%, {}%)", hash % 360, 25 + hash % 15, 30 + hash % 10);
    assert_eq!(phase_color(&long), expected);
}
