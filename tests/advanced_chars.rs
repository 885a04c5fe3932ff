use monkey::AdvancedChars;

#[test]
fn empty_input() {
    // initialize
    let mut advanced_chars = AdvancedChars::new("");
    assert_eq!(advanced_chars.peek(), None);
    assert_eq!(advanced_chars.peek_pos(), None);
    assert_eq!(advanced_chars.current_pos(), None);
    assert_eq!(advanced_chars.len(), 0);

    // first iteration (test for fused)
    assert_eq!(advanced_chars.next(), None);
    assert_eq!(advanced_chars.peek(), None);
    assert_eq!(advanced_chars.peek_pos(), None);
    assert_eq!(advanced_chars.current_pos(), None);
    assert_eq!(advanced_chars.len(), 0);
}

#[test]
fn one_char_input() {
    let mut advanced_chars = AdvancedChars::new("a");
    assert_eq!(advanced_chars.peek(), Some(&'a'));
    assert_eq!(advanced_chars.peek_pos(), Some(0));
    assert_eq!(advanced_chars.current_pos(), None);
    assert_eq!(advanced_chars.len(), 1);

    assert_eq!(advanced_chars.next(), Some('a'));
    assert_eq!(advanced_chars.peek(), None);
    assert_eq!(advanced_chars.peek_pos(), None);
    assert_eq!(advanced_chars.current_pos(), Some(0));
    assert_eq!(advanced_chars.len(), 1);

    // third iteration (test for fused)
    assert_eq!(advanced_chars.next(), None);
    assert_eq!(advanced_chars.peek(), None);
    assert_eq!(advanced_chars.peek_pos(), None);
    assert_eq!(advanced_chars.current_pos(), None);
    assert_eq!(advanced_chars.len(), 1);
}

#[test]
fn advanced_chars_simple() {
    let mut advanced_chars = AdvancedChars::new("hi");
    // initialized test
    assert_eq!(advanced_chars.peek(), Some(&'h'));
    assert_eq!(advanced_chars.peek_pos(), Some(0));
    assert_eq!(advanced_chars.current_pos(), None);
    assert_eq!(advanced_chars.len(), 2);

    // first iteration
    assert_eq!(advanced_chars.next(), Some('h'));
    assert_eq!(advanced_chars.peek(), Some(&'i'));
    assert_eq!(advanced_chars.current_pos(), Some(0));
    assert_eq!(advanced_chars.peek_pos(), Some(1));
    assert_eq!(advanced_chars.len(), 2);

    // second iteration
    assert_eq!(advanced_chars.next(), Some('i'));
    assert_eq!(advanced_chars.peek(), None);
    assert_eq!(advanced_chars.current_pos(), Some(1));
    assert_eq!(advanced_chars.peek_pos(), None);
    assert_eq!(advanced_chars.len(), 2);

    // third iteration (test for fused)
    assert_eq!(advanced_chars.next(), None);
    assert_eq!(advanced_chars.peek(), None);
    assert_eq!(advanced_chars.current_pos(), None);
    assert_eq!(advanced_chars.peek_pos(), None);
    assert_eq!(advanced_chars.len(), 2);

    // fourth iteration (should be same as third, fused)
    assert_eq!(advanced_chars.next(), None);
    assert_eq!(advanced_chars.peek(), None);
    assert_eq!(advanced_chars.current_pos(), None);
    assert_eq!(advanced_chars.peek_pos(), None);
    assert_eq!(advanced_chars.len(), 2);
}

#[test]
fn multibyte_positions_are_byte_offsets() {
    let mut advanced_chars = AdvancedChars::new("Зa");
    assert_eq!(advanced_chars.len(), 3);
    assert_eq!(advanced_chars.next(), Some('З'));
    assert_eq!(advanced_chars.current_pos(), Some(0));
    assert_eq!(advanced_chars.peek_pos(), Some(2));
    assert_eq!(advanced_chars.peek_pos_or_end(), 2);
    assert_eq!(advanced_chars.next(), Some('a'));
    assert_eq!(advanced_chars.peek_pos_or_end(), 3);
    assert_eq!(advanced_chars.current_pos_or_end(), 2);
    assert_eq!(advanced_chars.next(), None);
    assert_eq!(advanced_chars.current_pos_or_end(), 3);
}
