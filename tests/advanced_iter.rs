use monkey::AdvancedIter;

#[test]
fn advanced_iter_simple() {
    let chars = "hi".chars();
    let mut advanced_iter = AdvancedIter::new(chars);
    assert_eq!(advanced_iter.next(), Some('h'));
}

#[test]
fn advanced_iter_positions() {
    let mut advanced_iter = AdvancedIter::new(vec![10, 20].into_iter());
    assert_eq!(advanced_iter.peek_item(), Some(&10));
    assert_eq!(advanced_iter.peek_pos(), Some(0));
    assert_eq!(advanced_iter.current_pos(), None);
    assert_eq!(advanced_iter.next(), Some(10));
    assert_eq!(advanced_iter.peek(), Some(&20));
    assert_eq!(advanced_iter.peek_pos(), Some(1));
    assert_eq!(advanced_iter.current_pos(), Some(0));
    assert_eq!(advanced_iter.next(), Some(20));
    assert_eq!(advanced_iter.peek(), None);
    assert_eq!(advanced_iter.peek_pos(), None);
    assert_eq!(advanced_iter.current_pos(), Some(1));
    assert_eq!(advanced_iter.next(), None);
    assert_eq!(advanced_iter.current_pos(), None);
}
