use gallsh::entries::Entries;
use gallsh::entry::{make_entry, EntryList};
use gallsh::order::Order;
use gallsh::rank::Rank;

fn list() -> EntryList {
    vec![
        make_entry(String::from("photos/foo.jpeg"), 100, 5, 40, Rank::NoStar),
        make_entry(String::from("photos/bar.jpeg"), 1000, 15, 20, Rank::ThreeStars),
        make_entry(String::from("photos/qux.jpeg"), 10, 25, 30, Rank::TwoStars),
        make_entry(String::from("photos/bub.jpeg"), 100, 25, 10, Rank::OneStar),
        make_entry(String::from("photos/zed.jpeg"), 7, 1, 50, Rank::OneStar),
    ]
}

fn names(entries: &Entries) -> Vec<String> {
    entries.entry_list.iter().map(|e| e.original_file_name()).collect()
}

#[test]
fn a_new_list_starts_on_its_first_picture() {
    let entries = Entries::new(list(), 2);
    assert_eq!(5, entries.len());
    assert_eq!(0, entries.navigator.index());
    assert_eq!("photos/foo.jpeg", entries.at(0, 0).unwrap().file_path);
    assert_eq!("photos/qux.jpeg", entries.at(0, 1).unwrap().file_path);
    assert!(entries.at(2, 2).is_none());
    assert!(matches!(entries.order, Some(Order::Random)));
}

#[test]
fn pages_turn_and_jumps_drop_the_typed_index() {
    let mut entries = Entries::new(list(), 2);
    entries.add_digit_to_register(3);
    entries.next();
    assert_eq!(None, entries.register);
    assert_eq!(4, entries.navigator.index());
    entries.prev();
    assert_eq!(0, entries.navigator.index());
    entries.jump(3);
    assert_eq!(3, entries.navigator.index());
}

#[test]
fn the_typed_index_starts_with_a_digit_and_stays_below_the_length() {
    let mut entries = Entries::new(list(), 1);
    entries.add_digit_to_register(3);
    assert_eq!(Some(3), entries.register);
    entries.add_digit_to_register(1);
    assert_eq!(Some(3), entries.register);
    entries.remove_digit_to_register();
    assert_eq!(Some(0), entries.register);
    entries.remove_digit_to_register();
    assert_eq!(None, entries.register);
    entries.add_digit_to_register(4);
    entries.go_to_register();
    assert_eq!(4, entries.navigator.index());
    assert_eq!(None, entries.register);
}

#[test]
fn an_area_is_selected_between_two_marks() {
    let mut entries = Entries::new(list(), 1);
    entries.jump(3);
    entries.toggle_select_area();
    assert_eq!(Some(3), entries.start_index);
    entries.jump(1);
    entries.toggle_select_area();
    assert_eq!(None, entries.start_index);
    let selected: Vec<bool> = entries.entry_list.iter().map(|e| e.image_data.selected).collect();
    assert_eq!(vec![false, true, true, true, false], selected);
    entries.toggle_select_area();
    assert_eq!(None, entries.start_index);
}

#[test]
fn an_area_is_ranked_between_two_marks() {
    let mut entries = Entries::new(list(), 1);
    entries.toggle_rank_area(Rank::TwoStars);
    entries.jump(2);
    entries.toggle_rank_area(Rank::TwoStars);
    assert_eq!(Some(0), entries.star3_index);
    entries.jump(1);
    entries.toggle_rank_area(Rank::TwoStars);
    let ranks: Vec<Rank> = entries.entry_list.iter().map(|e| e.image_data.rank).collect();
    assert_eq!(vec![Rank::TwoStars, Rank::TwoStars, Rank::TwoStars, Rank::OneStar, Rank::OneStar], ranks);
}

#[test]
fn grid_operations_touch_the_pictures_of_the_page() {
    let mut entries = Entries::new(list(), 2);
    entries.next();
    entries.set_grid_select();
    let selected: Vec<bool> = entries.entry_list.iter().map(|e| e.image_data.selected).collect();
    assert_eq!(vec![false, false, false, false, true], selected);
    entries.prev();
    entries.unset_grid_ranks();
    assert_eq!(Rank::NoStar, entries.entry_list[1].image_data.rank);
    assert_eq!(Rank::OneStar, entries.entry_list[4].image_data.rank);
    entries.next();
    entries.reset_grid_select();
    assert!(!entries.entry_list[4].image_data.selected);
    entries.select_with_rank(Rank::OneStar);
    assert!(entries.entry_list[4].image_data.selected);
    assert!(!entries.entry_list[3].image_data.selected);
    entries.reset_all_select();
    assert!(entries.entry_list.iter().all(|e| !e.image_data.selected));
}

#[test]
fn lists_sort_by_their_own_keys() {
    let mut entries = Entries::new(list(), 1);
    entries.sort_by(Order::Colors);
    assert_eq!(vec!["zed.jpeg", "foo.jpeg", "bar.jpeg", "qux.jpeg", "bub.jpeg"], names(&entries));
    entries.sort_by(Order::Date);
    assert_eq!(vec!["bub.jpeg", "bar.jpeg", "qux.jpeg", "foo.jpeg", "zed.jpeg"], names(&entries));
    entries.sort_by(Order::Name);
    assert_eq!(vec!["bar.jpeg", "bub.jpeg", "foo.jpeg", "qux.jpeg", "zed.jpeg"], names(&entries));
    entries.sort_by(Order::Size);
    assert_eq!(vec!["zed.jpeg", "qux.jpeg", "bub.jpeg", "foo.jpeg", "bar.jpeg"], names(&entries));
    entries.sort_by(Order::Value);
    assert_eq!(vec!["bar.jpeg", "qux.jpeg", "bub.jpeg", "zed.jpeg", "foo.jpeg"], names(&entries));
    assert!(matches!(entries.order, Some(Order::Value)));
}

#[test]
fn reordering_keeps_the_current_picture() {
    let mut entries = Entries::new(list(), 1);
    entries.jump(2);
    entries.reorder(Order::Name);
    assert_eq!("qux.jpeg", entries.entry().original_file_name());
    assert_eq!(3, entries.navigator.index());
    entries.reorder(Order::Random);
    assert_eq!("qux.jpeg", entries.entry().original_file_name());
}

#[test]
fn slices_are_bound_to_the_last_picture() {
    let mut entries = Entries::new(list(), 1);
    entries.slice(Some(1), Some(100));
    assert_eq!(vec!["bar.jpeg", "qux.jpeg", "bub.jpeg", "zed.jpeg"], names(&entries));
    entries.slice(None, Some(1));
    assert_eq!(vec!["bar.jpeg", "qux.jpeg"], names(&entries));
    entries.slice(None, None);
    assert_eq!(2, entries.len());
}

#[test]
fn the_status_line_shows_order_place_and_title() {
    let mut entries = Entries::new(list(), 1);
    entries.jump(1);
    assert_eq!(" ordered by Random 1/4  bar.jpeg  [1000 15 ☆☆☆]  ", entries.status());
    entries.star_select = None;
    entries.add_digit_to_register(2);
    entries.toggle_real_size();
    assert_eq!("… ordered by Random 1/4  bar.jpeg  [1000 15 ☆☆☆] 2 *", entries.status());
}

#[test]
fn saved_lists_and_copies_follow_the_selection() {
    let mut entries = Entries::new(list(), 1);
    entries.jump(1);
    entries.toggle_select();
    assert_eq!(vec!["photos/bar.jpeg"], entries.save_marked_file_lists(true));
    assert_eq!(vec!["photos/bar.jpeg"], entries.save_marked_file_lists(false));
    assert_eq!(
        vec![
            (String::from("photos/bar.jpeg"), String::from("t/bar.jpeg")),
            (String::from("photos/barTHUMB.jpeg"), String::from("t/barTHUMB.jpeg")),
            (String::from("photos/barIMAGE_DATA.json"), String::from("t/barIMAGE_DATA.json")),
        ],
        entries.copy_selection("t")
    );
}

#[test]
fn a_selection_file_selects_the_pictures_it_names() {
    let mut list = list();
    list[2].file_path = String::from("photos/quxTHUMB.jpeg");
    let mut entries = Entries::new(list, 1);
    entries.set_selected_images("photos/bub.jpeg\nphotos/qux.jpeg\nphotos/none.jpeg\n");
    let selected: Vec<bool> = entries.entry_list.iter().map(|e| e.image_data.selected).collect();
    assert_eq!(vec![false, false, true, true, false], selected);
}

#[test]
fn a_random_jump_stays_in_the_list() {
    let mut entries = Entries::new(list(), 2);
    entries.add_digit_to_register(1);
    entries.jump_random();
    assert!(entries.navigator.index() < 5);
    assert_eq!(None, entries.register);
    let copy = entries.entry();
    assert_eq!(entries.entry_list[entries.navigator.index()], copy);
}

#[test]
fn rank_and_selection_of_the_current_picture_change() {
    let mut entries = Entries::new(list(), 1);
    entries.set_rank(Rank::TwoStars);
    assert_eq!(Rank::TwoStars, entries.entry().image_data.rank);
    entries.toggle_select();
    assert!(entries.entry().image_data.selected);
}
