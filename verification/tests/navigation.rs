use gallsh::direction::Direction;
use gallsh::navigator::Navigator;

#[test]
fn current_index_before_any_move_is_given_index() {
    let navigator = Navigator::new(10, 4);
    assert_eq!(0 as usize, navigator.index());
}

#[test]
fn after_a_move_rel_index_has_changed() {
    let mut navigator = Navigator::new(10, 4);
    navigator.move_rel(Direction::Right);
    assert_eq!(1, navigator.index());
    navigator.move_rel(Direction::Down);
    assert_eq!(5, navigator.index());
    navigator.move_rel(Direction::Left);
    assert_eq!(4, navigator.index());
    navigator.move_rel(Direction::Up);
    assert_eq!(0, navigator.index());
}

#[test]
fn after_a_move_abs_index_has_changed() {
    let mut navigator = Navigator::new(100, 4);
    navigator.move_abs((3, 2));
    assert_eq!(11, navigator.index());
    navigator.move_abs((2, 3));
    assert_eq!(14, navigator.index());
}

#[test]
fn after_next_page_or_prev_page_index_is_changed_and_aligned_to_a_page() {
    let mut navigator = Navigator::new(100, 4);
    assert_eq!(0, navigator.index());
    navigator.move_rel(Direction::Right);
    navigator.move_rel(Direction::Right);
    navigator.move_next_page();
    assert_eq!(16, navigator.index());
    navigator.move_rel(Direction::Down);
    navigator.move_rel(Direction::Down);
    assert_eq!(16 + 4 + 4, navigator.index());
    navigator.move_prev_page();
    assert_eq!(0, navigator.index());
}

#[test]
fn after_prev_page_on_first_page_index_is_start_of_last_page() {
    let mut navigator = Navigator::new(10, 2);
    navigator.move_prev_page();
    assert_eq!(8, navigator.index());
    navigator = Navigator::new(10, 3);
    navigator.move_prev_page();
    assert_eq!(9, navigator.index());
}

#[test]
fn after_next_page_on_last_page_index_is_start_of_first_page() {
    let mut navigator = Navigator::new(10, 2);
    navigator.move_next_page();
    navigator.move_next_page();
    navigator.move_next_page();
    assert_eq!(0, navigator.index());
}

#[test]
fn relative_move_can_be_checked() {
    let mut navigator = Navigator::new(10, 2);
    assert_eq!(true, navigator.can_move_rel(Direction::Right));
    assert_eq!(false, navigator.can_move_rel(Direction::Left));
    assert_eq!(false, navigator.can_move_rel(Direction::Up));
    navigator.move_rel(Direction::Right);
    assert_eq!(true, navigator.can_move_rel(Direction::Left));
}

#[test]
fn on_last_page_move_is_checked_against_capacity() {
    let mut navigator = Navigator::new(10, 2);
    navigator.move_next_page();
    assert_eq!(true, navigator.can_move_rel(Direction::Right));
    navigator.move_next_page();
    assert_eq!(false, navigator.can_move_rel(Direction::Down));
}

#[test]
fn move_to_index_can_be_checked() {
    let navigator = Navigator::new(10, 2);
    assert_eq!(true, navigator.can_move_to_index(3));
}

#[test]
fn after_move_to_index_page_can_be_changed() {
    let mut navigator = Navigator::new(10, 2);
    navigator.move_to_index(7);
    assert_eq!(4, navigator.start_cell_index());
    assert_eq!((1, 1), navigator.position());
    assert_eq!(7, navigator.index());
}

#[test]
fn index_from_position_can_yield_a_possible_index() {
    let mut navigator = Navigator::new(10, 2);
    assert_eq!(Some(3), navigator.index_from_position((1, 1)));
    navigator.move_next_page();
    assert_eq!(Some(7), navigator.index_from_position((1, 1)));
    navigator.move_next_page();
    assert_eq!(None, navigator.index_from_position((1, 1)));
}

#[test]
fn next_page_then_prev_page_returns_to_the_page() {
    let mut navigator = Navigator::new(10, 2);
    navigator.move_next_page();
    let start = navigator.start_cell_index();
    navigator.move_next_page();
    navigator.move_prev_page();
    assert_eq!(start, navigator.start_cell_index());
    assert_eq!((0, 0), navigator.position());
}

#[test]
fn a_page_change_is_reported_and_a_refresh_reports_it() {
    let mut navigator = Navigator::new(10, 2);
    assert!(navigator.page_changed());
    navigator.move_rel(Direction::Right);
    assert!(!navigator.page_changed());
    navigator.refresh();
    assert!(navigator.page_changed());
    assert_eq!(1, navigator.index());
}

#[test]
fn a_direction_converts_to_offsets_and_back() {
    let offsets: (i32, i32) = Direction::Left.into();
    assert_eq!((-1, 0), offsets);
    let offsets: (i32, i32) = Direction::Down.into();
    assert_eq!((0, 1), offsets);
    assert!(matches!(Direction::from((0, -1)), Direction::Up));
    assert!(matches!(Direction::from((1, 0)), Direction::Right));
}

#[test]
fn page_sizes_follow_the_grid() {
    let navigator = Navigator::new(10, 3);
    assert_eq!(9, navigator.max_cells());
    assert_eq!(3, navigator.cells_per_row());
    assert_eq!(10, navigator.capacity());
}

#[test]
fn every_move_leaves_a_picture_under_the_cursor() {
    let mut navigator = Navigator::new(7, 2);
    for _ in 0..3 {
        navigator.move_next_page();
        assert!(navigator.index_from_position(navigator.position()).is_some());
    }
    navigator.move_prev_page();
    assert!(navigator.index_from_position(navigator.position()).is_some());
    navigator.move_prev_page();
    assert_eq!(4, navigator.index());
    if navigator.can_move_rel(Direction::Right) {
        navigator.move_rel(Direction::Right);
    }
    assert!(navigator.index_from_position(navigator.position()).is_some());
    navigator.move_to_index(6);
    assert_eq!(Some(6), navigator.index_from_position(navigator.position()));
}
