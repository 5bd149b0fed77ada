use sandfall::block::Block;
use sandfall::cell::Cell;
use sandfall::rng::Coin;

const BASIC_SYMBOLS: &str = "!@#$%^&*()_+-=[]{}|;:',.<>?/";
const FULL_SYMBOLS: &str = "!@#$%^&*()_+-=[]{}|;:',.<>?/`~\"\\";

#[test]
fn block_new_draws_a_letter_and_a_hue_in_range() {
    for _ in 0..100 {
        let b = Block::new();
        assert!(b.hue < 360);
        assert!(b.character.is_ascii_lowercase() || b.character.is_ascii_uppercase());
    }
}

#[test]
fn cell_new_with_only_lowercase_enabled() {
    for _ in 0..50 {
        let c = Cell::new(true, false, false, false);
        assert!(c.hue < 360);
        assert!(c.glyph.is_ascii_lowercase());
    }
}

#[test]
fn cell_new_with_only_uppercase_enabled() {
    for _ in 0..50 {
        let c = Cell::new(false, true, false, false);
        assert!(c.glyph.is_ascii_uppercase());
    }
}

#[test]
fn cell_new_with_only_numbers_enabled() {
    for _ in 0..50 {
        let c = Cell::new(false, false, true, false);
        assert!(c.glyph.is_ascii_digit());
    }
}

#[test]
fn cell_new_with_only_symbols_enabled() {
    for _ in 0..100 {
        let c = Cell::new(false, false, false, true);
        assert!(FULL_SYMBOLS.contains(c.glyph));
    }
}

#[test]
fn cell_new_with_both_letter_cases_enabled() {
    for _ in 0..50 {
        let c = Cell::new(true, true, false, false);
        assert!(c.glyph.is_ascii_lowercase() || c.glyph.is_ascii_uppercase());
    }
}

#[test]
fn cell_new_with_letters_and_numbers_enabled() {
    for _ in 0..50 {
        let c = Cell::new(true, true, true, false);
        assert!(c.glyph.is_ascii_alphanumeric());
    }
}

#[test]
fn cell_new_with_all_classes_enabled() {
    for _ in 0..100 {
        let c = Cell::new(true, true, true, true);
        assert!(c.glyph.is_ascii_alphanumeric() || BASIC_SYMBOLS.contains(c.glyph));
    }
}

#[test]
fn cell_new_with_no_class_enabled_uses_the_replacement_character() {
    let c = Cell::new(false, false, false, false);
    assert_eq!(c.glyph, '\u{FFFD}');
}

#[test]
fn fixed_coin_replays_its_bits_and_then_yields_false() {
    let mut coin = Coin::Fixed {
        bits: vec![true, false, true],
        next: 0,
    };
    assert!(coin.flip());
    assert!(!coin.flip());
    assert!(coin.flip());
    assert!(!coin.flip());
    assert!(!coin.flip());
}

#[test]
fn random_coin_keeps_flipping() {
    let mut coin = Coin::Random;
    for _ in 0..10 {
        let _ = coin.flip();
    }
}
