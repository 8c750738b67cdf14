use chrono::DateTime;
use gallsh::image_data::ImageData;
use std::cmp::Ordering;
use gallsh::direction::Direction;
use gallsh::entry::{make_entry, Entry, EntryList};
use gallsh::order::Order;
use gallsh::rank::Rank;
use gallsh::repository::{sort_paths_are_defined, Repository};

fn nanos(date: &str) -> i128 {
    DateTime::parse_from_rfc2822(date).unwrap().timestamp_nanos_opt().unwrap() as i128
}

fn a_day() -> i128 {
    nanos("Sun, 1 Jan 2023 10:52:37 GMT")
}

fn example() -> EntryList {
    let day_a = nanos("Sun, 1 Jan 2023 10:52:37 GMT");
    let day_b = nanos("Sat, 1 Jul 2023 10:52:37 GMT");
    let day_c = nanos("Mon, 1 Jan 2024 10:52:37 GMT");
    let day_d = nanos("Mon, 1 Jan 2024 11:52:37 GMT");
    vec![
        make_entry(String::from("photos/foo.jpeg"), 100, 5, day_d, Rank::NoStar),
        make_entry(String::from("photos/bar.jpeg"), 1000, 15, day_b, Rank::ThreeStars),
        make_entry(String::from("photos/qux.jpeg"), 10, 25, day_c, Rank::TwoStars),
        make_entry(String::from("photos/bub.jpeg"), 100, 25, day_a, Rank::OneStar),
    ]
}

fn repository() -> Repository {
    Repository::from_entries(example(), 2, None, None, None, false)
}

fn name_at(repository: &Repository, index: usize) -> String {
    repository.entry_at_index(index).unwrap().original_file_name()
}

#[test]
fn title_show_the_entry_information() {
    let mut entry = make_entry(String::from("photos/foo.jpeg"), 65636, 256, a_day(), Rank::ThreeStars);
    entry.image_data.selected = true;
    assert_eq!("foo.jpeg △ [65636 256 ☆☆☆]", entry.title_display());
}

#[test]
fn label_show_basic_entry_information() {
    let mut entry = make_entry(String::from("photos/foo.jpeg"), 65636, 256, a_day(), Rank::ThreeStars);
    let without_focus = false;
    let with_focus = true;
    assert_eq!("☆☆☆", entry.label_display(without_focus));
    assert_eq!("▄☆☆☆", entry.label_display(with_focus));
    entry.image_data.selected = true;
    assert_eq!("☆☆☆△", entry.label_display(without_focus));
    assert_eq!("▄☆☆☆△", entry.label_display(with_focus));
}

#[test]
fn after_creation_the_current_entry_is_the_first_entry() {
    let repository = repository();
    assert_eq!(4, repository.capacity());
    assert_eq!(2, repository.cells_per_row());
    let entry: &Entry = repository.current_entry().unwrap();
    assert_eq!(example()[0], *entry);
}

#[test]
fn after_moving_one_col_current_entry_is_the_second_entry() {
    let mut repository = repository();
    repository.move_rel(Direction::Right);
    let entry: &Entry = repository.current_entry().unwrap();
    assert_eq!(example()[1], *entry);
}

#[test]
fn after_toggle_select_current_entry_is_selected_or_unselected() {
    let mut repository = repository();
    repository.toggle_select();
    assert_eq!(true, repository.current_entry().unwrap().image_data.selected);
    repository.toggle_select();
    assert_eq!(false, repository.current_entry().unwrap().image_data.selected);
}

#[test]
fn after_two_select_points_a_group_of_entries_is_selected() {
    let mut repository = repository();
    repository.move_rel(Direction::Down);
    repository.select_point();
    repository.move_rel(Direction::Up);
    repository.point_select();
    for index in 0..3 {
        assert_eq!(true, repository.entry_at_index(index).unwrap().image_data.selected)
    }
    assert_eq!(false, repository.entry_at_index(3).unwrap().image_data.selected)
}

#[test]
fn after_setting_rank_current_entries_has_a_new_rank() {
    let mut repository = repository();
    repository.set_rank(Rank::ThreeStars);
    assert_eq!(Rank::ThreeStars, repository.current_entry().unwrap().image_data.rank);
}

#[test]
fn after_two_rank_points_a_group_on_entries_has_rank_changed() {
    let mut repository = repository();
    repository.move_rel(Direction::Down);
    repository.select_point();
    repository.move_rel(Direction::Up);
    repository.point_rank(Rank::TwoStars);
    for index in 0..3 {
        assert_eq!(Rank::TwoStars, repository.entry_at_index(index).unwrap().image_data.rank)
    }
    assert_eq!(Rank::OneStar, repository.entry_at_index(3).unwrap().image_data.rank)
}

#[test]
fn sorting_entries_by_date() {
    let mut repository = repository();
    repository.sort_by(Order::Date);
    assert_eq!("bub.jpeg", name_at(&repository, 0));
    assert_eq!("bar.jpeg", name_at(&repository, 1));
    assert_eq!("qux.jpeg", name_at(&repository, 2));
    assert_eq!("foo.jpeg", name_at(&repository, 3));
}

#[test]
fn sorting_entries_by_name() {
    let mut repository = repository();
    repository.sort_by(Order::Name);
    assert_eq!("bar.jpeg", name_at(&repository, 0));
    assert_eq!("bub.jpeg", name_at(&repository, 1));
    assert_eq!("foo.jpeg", name_at(&repository, 2));
    assert_eq!("qux.jpeg", name_at(&repository, 3));
}

#[test]
fn sorting_entries_by_colors_then_name() {
    let mut repository = repository();
    repository.sort_by(Order::Colors);
    assert_eq!(
        String::from("foo.jpeg"),
        repository.current_entry().unwrap().original_file_name()
    );
    assert_eq!("bar.jpeg", name_at(&repository, 1));
    assert_eq!("bub.jpeg", name_at(&repository, 2));
    assert_eq!("qux.jpeg", name_at(&repository, 3));
}

#[test]
fn sorting_entries_by_value_then_name() {
    let mut repository = repository();
    repository.sort_by(Order::Value);
    assert_eq!("bar.jpeg", name_at(&repository, 0));
    assert_eq!("qux.jpeg", name_at(&repository, 1));
    assert_eq!("bub.jpeg", name_at(&repository, 2));
    assert_eq!("foo.jpeg", name_at(&repository, 3));
}

#[test]
fn slicing_entries_without_limits_yields_the_whole_set() {
    let mut repository = repository();
    repository.slice(None, None);
    assert_eq!(4, repository.capacity());
}

#[test]
fn slicing_entries_with_low_limit_yields_a_portion_of_the_set() {
    let mut repository = repository();
    repository.slice(Some(2), None);
    assert_eq!(2, repository.capacity());
    assert_eq!(
        String::from("qux.jpeg"),
        repository.current_entry().unwrap().original_file_name()
    );
}

#[test]
fn slicing_entries_with_high_limit_yields_a_portion_of_the_set() {
    let mut repository = repository();
    repository.slice(None, Some(2));
    assert_eq!(3, repository.capacity());
}

#[test]
fn sorting_keeps_the_current_picture() {
    let mut repository = repository();
    repository.move_to_index(2);
    repository.sort_by(Order::Name);
    assert_eq!("qux.jpeg", repository.current_entry().unwrap().original_file_name());
    assert_eq!(3, repository.current_index());
}

#[test]
fn random_order_keeps_every_picture() {
    let mut repository = repository();
    repository.sort_by(Order::Random);
    let mut names: Vec<String> = (0..4).map(|i| name_at(&repository, i)).collect();
    names.sort();
    assert_eq!(vec!["bar.jpeg", "bub.jpeg", "foo.jpeg", "qux.jpeg"], names);
    assert_eq!("foo.jpeg", repository.current_entry().unwrap().original_file_name());
}

#[test]
fn toggling_the_selection_twice_restores_the_picture() {
    let mut entry = make_entry(String::from("photos/foo.jpeg"), 1, 2, a_day(), Rank::OneStar);
    let before = entry.clone();
    entry.toggle_select();
    assert!(entry.is_selected());
    entry.toggle_select();
    assert_eq!(before, entry);
}

#[test]
fn a_label_is_recorded_from_the_edit_field() {
    let mut repository = repository();
    repository.begin_label_edit();
    for c in "trip".chars() {
        repository.add_edit_char(c);
    }
    repository.confirm_label_edit();
    assert_eq!("trip", repository.current_entry().unwrap().image_data.label);
    assert_eq!("trip", repository.current_entry().unwrap().label_display(false));
}

#[test]
fn labels_order_labelled_pictures_first() {
    let mut a = ImageData::new(1, Rank::NoStar);
    let mut b = ImageData::new(1, Rank::NoStar);
    assert_eq!(Ordering::Equal, a.cmp_label(&b));
    a.label = String::from("sea");
    assert_eq!(Ordering::Less, a.cmp_label(&b));
    assert_eq!(Ordering::Greater, b.cmp_label(&a));
    b.label = String::from("sky");
    assert_eq!(Ordering::Less, a.cmp_label(&b));
    assert_eq!(None, ImageData::new(1, Rank::NoStar).label());
    assert_eq!(Some(String::from("sky")), b.label());
}

#[test]
fn a_search_moves_to_the_first_picture_whose_name_holds_the_text() {
    let mut repository = repository();
    repository.begin_search_edit();
    assert!(repository.search_edit_mode_on());
    for c in "u".chars() {
        repository.add_edit_char(c);
    }
    repository.confirm_search_edit();
    assert!(!repository.search_edit_mode_on());
    assert_eq!("qux.jpeg", repository.current_entry().unwrap().original_file_name());
    repository.remove_edit_char();
    repository.search();
    assert_eq!(2, repository.current_index());
}

#[test]
fn switches_flip_and_modes_cancel() {
    let mut repository = repository();
    assert!(repository.grid_limit_on());
    repository.toggle_grid_limit();
    assert!(!repository.grid_limit_on());
    repository.begin_label_edit();
    assert!(repository.label_edit_mode_on());
    repository.cancel_label_edit();
    assert!(!repository.label_edit_mode_on());
    repository.set_order_choice_on();
    assert!(repository.order_choice_on());
    assert!(!repository.real_size());
}

#[test]
fn the_title_tells_the_selection_the_order_and_the_place() {
    let mut repository = repository();
    repository.toggle_select();
    assert_eq!(
        "S:[1]  ordered by Random 0/3  foo.jpeg △ [100 5 ]    ",
        repository.title_display()
    );
}

#[test]
fn a_label_range_and_a_page_selection_change_the_pictures_and_report_them() {
    let mut repository = repository();
    repository.begin_label_edit();
    repository.add_edit_char('x');
    repository.cancel_label_edit();
    repository.select_point();
    repository.move_rel(Direction::Right);
    let saved = repository.point_label();
    assert_eq!(vec![0, 1], saved);
    assert_eq!("x", repository.entry_at_index(1).unwrap().image_data.label);
    repository.select_point();
    repository.move_rel(Direction::Left);
    let saved = repository.point_remove_label();
    assert_eq!(vec![0, 1], saved);
    assert_eq!("", repository.entry_at_index(0).unwrap().image_data.label);
    let saved = repository.select_page(true);
    assert_eq!(vec![0, 1, 2, 3], saved);
    assert!(repository.entry_at_index(3).unwrap().image_data.selected);
    let saved = repository.select_all(false);
    assert_eq!(vec![0, 1, 2, 3], saved);
    assert!(!repository.entry_at_index(3).unwrap().image_data.selected);
}

#[test]
fn ten_pages_move_together() {
    let list = (0..50)
        .map(|i| make_entry(format!("p/{}.jpg", i), 1, 1, 0, Rank::NoStar))
        .collect();
    let mut repository = Repository::from_entries(list, 2, None, None, None, false);
    repository.move_forward_ten_pages();
    assert_eq!(40, repository.current_index());
    repository.move_backward_ten_pages();
    assert_eq!(0, repository.current_index());
    repository.move_in_direction(Direction::Right);
    assert_eq!(4, repository.current_index());
    repository.move_in_direction(Direction::Up);
    assert_eq!(0, repository.current_index());
}

#[test]
fn the_selected_count_follows_selections_sorts_and_moves() {
    let mut repository = repository();
    repository.toggle_select();
    repository.move_rel(Direction::Right);
    repository.toggle_select();
    repository.sort_by(Order::Name);
    repository.set_rank(Rank::OneStar);
    repository.move_next_page();
    assert!(repository.title_display().starts_with("S:[2]"));
    repository.select_all(true);
    assert!(repository.title_display().starts_with("S:[4]"));
    repository.select_page(false);
    let selected = (0..4).filter(|i| repository.entry_at_index(*i).unwrap().image_data.selected).count();
    assert!(repository.title_display().starts_with(&format!("S:[{}]", selected)));
}

#[test]
fn ten_pages_back_then_forward_return_to_the_page() {
    let list = (0..50)
        .map(|i| make_entry(format!("p/{}.jpg", i), 1, 1, 0, Rank::NoStar))
        .collect();
    let mut repository = Repository::from_entries(list, 2, None, None, None, false);
    repository.move_next_page();
    repository.move_next_page();
    assert_eq!(8, repository.current_index());
    repository.move_backward_ten_pages();
    repository.move_forward_ten_pages();
    assert_eq!(8, repository.current_index());
    assert_eq!((0, 0), repository.position());
}

#[test]
fn label_order_is_antisymmetric() {
    let mut a = ImageData::new(1, Rank::NoStar);
    let mut b = ImageData::new(1, Rank::NoStar);
    assert_eq!(Ordering::Equal, a.cmp_label(&b));
    a.label = String::from("cat");
    assert_eq!(Ordering::Less, a.cmp_label(&b));
    assert_eq!(Ordering::Greater, b.cmp_label(&a));
    b.label = String::from("car");
    assert_eq!(Ordering::Greater, a.cmp_label(&b));
    assert_eq!(Ordering::Less, b.cmp_label(&a));
}

#[test]
fn ordering_reads_the_paths_of_the_pictures_before_the_current_one() {
    let list: EntryList = vec![
        make_entry(String::from("p/a.jpg"), 1, 1, 10, Rank::NoStar),
        make_entry(String::from("p/bTHUMB"), 1, 1, 20, Rank::NoStar),
    ];
    assert!(sort_paths_are_defined(&list, Order::Date, 0));
    assert!(!sort_paths_are_defined(&list, Order::Date, 1));
    assert!(!sort_paths_are_defined(&list, Order::Name, 0));
    assert!(!sort_paths_are_defined(&list, Order::Random, 0));
    let mut repository = Repository::from_entries(list, 1, None, None, None, false);
    repository.sort_by(Order::Date);
    assert_eq!(0, repository.current_index());
    assert_eq!("p/a.jpg", repository.current_entry().unwrap().file_path);
}
