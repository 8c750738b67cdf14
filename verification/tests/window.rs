use gallsh::display::{
    focus_follows_click, key_action, label_has_focus, picture_shade, shows_thumbnails, KeyAction,
    Shade,
};
use gallsh::entry::make_entry;
use gallsh::paths::{has_slash, original_is_defined};
use gallsh::rank::Rank;
use gallsh::repository::Repository;

#[test]
fn deletion_shades_more_than_selection() {
    let mut e = make_entry(String::from("p/a.jpg"), 1, 1, 0, Rank::NoStar);
    assert_eq!(Shade::Plain, picture_shade(&e));
    e.set_select(true);
    assert_eq!(Shade::Selected, picture_shade(&e));
    e.delete = true;
    assert_eq!(Shade::Deleted, picture_shade(&e));
}

#[test]
fn large_grids_show_thumbnails() {
    assert!(!shows_thumbnails(1));
    assert!(!shows_thumbnails(9));
    assert!(shows_thumbnails(10));
}

#[test]
fn only_the_current_cell_of_a_grid_has_the_focus_mark() {
    assert!(label_has_focus(3, 3, 2));
    assert!(!label_has_focus(3, 3, 1));
    assert!(!label_has_focus(2, 3, 2));
}

#[test]
fn direction_keys_scroll_turn_pages_or_move_cells() {
    assert_eq!(KeyAction::Scroll, key_action(true, 1));
    assert_eq!(KeyAction::TurnPage, key_action(false, 1));
    assert_eq!(KeyAction::MoveCell, key_action(false, 3));
    assert!(focus_follows_click(2, true));
    assert!(!focus_follows_click(1, true));
    assert!(!focus_follows_click(2, false));
}

#[test]
fn paths_are_checked_before_use() {
    assert!(has_slash("a/b.jpg"));
    assert!(!has_slash("b.jpg"));
    assert!(original_is_defined("a/b.jpg"));
    assert!(original_is_defined("a/bTHUMB.jpg"));
    assert!(!original_is_defined("a/bTHUMB"));
}

#[test]
fn the_typed_index_never_passes_the_last_picture() {
    let list = (0..12)
        .map(|i| make_entry(format!("p/{}.jpg", i), 1, 1, 0, Rank::NoStar))
        .collect();
    let mut repository = Repository::from_entries(list, 2, None, None, None, false);
    assert!(!repository.register_on());
    repository.move_to_register();
    assert!(repository.register_on());
    repository.add_register_digit(1);
    repository.add_register_digit(1);
    repository.add_register_digit(1);
    repository.move_to_register();
    assert_eq!(11, repository.current_index());
    repository.move_to_register();
    repository.add_register_digit(5);
    repository.delete_register_digit();
    repository.add_register_digit(7);
    repository.move_to_register();
    assert_eq!(7, repository.current_index());
}

#[test]
fn the_targets_of_a_repository_are_kept() {
    let list = vec![make_entry(String::from("p/a.jpg"), 1, 1, 0, Rank::NoStar)];
    let repository = Repository::from_entries(
        list.clone(),
        1,
        Some(String::from("c")),
        None,
        Some(String::from("l")),
        true,
    );
    assert_eq!(Some(String::from("c")), repository.copy_selection_target());
    assert_eq!(None, repository.move_selection_target());
    assert_eq!(Some(String::from("l")), repository.all_label_move_target());
    assert_eq!(&list, repository.entries());
    assert!(repository.sample());
}
