use example::memory::{stack_and_heap, stack_only};
use example::positive_number::PositiveNumber;
use example::sums::sum;
use example::text::longest;

#[test]
fn positive_number_accepts_ten() {
    let n = PositiveNumber::try_from(10).unwrap();
    assert_eq!(n.get(), 10);
}

#[test]
fn positive_number_accepts_zero() {
    assert_eq!(PositiveNumber::try_from(0).unwrap().get(), 0);
    assert_eq!(PositiveNumber::try_from(i32::MAX).unwrap().get(), i32::MAX as u32);
}

#[test]
fn positive_number_rejects_negative() {
    assert_eq!(PositiveNumber::try_from(-3), Err("-3 is not positive".to_string()));
    assert_eq!(
        PositiveNumber::try_from(i32::MIN),
        Err("-2147483648 is not positive".to_string())
    );
}

#[test]
fn longest_picks_longer_string() {
    assert_eq!(longest("hello", "world!!!"), "world!!!");
    assert_eq!(longest("longer", "short"), "longer");
}

#[test]
fn longest_prefers_second_on_tie() {
    assert_eq!(longest("abc", "xyz"), "xyz");
    // two bytes each
    assert_eq!(longest("é", "ab"), "ab");
}

#[test]
fn sum_adds_all_items() {
    assert_eq!(sum(&[1, 2, 3, 4, 5]), 15);
    assert_eq!(sum(&[]), 0);
    assert_eq!(sum(&[-7, 3]), -4);
}

#[test]
fn stack_values_add_up() {
    assert_eq!(stack_and_heap(), 12);
    assert_eq!(stack_only(2), 17);
}
