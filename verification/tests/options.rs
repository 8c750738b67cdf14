use gallsh::args::{less_than_11, selection_target, Args};
use gallsh::entry::{make_entry, EntryList};
use gallsh::order::Order;
use gallsh::rank::Rank;
use gallsh::repository::{init_repository, label_move_end, setup_repository, InitStep};
use gallsh::text::parse_i32;

fn args() -> Args {
    Args {
        directory: None,
        pattern: None,
        maximized: false,
        order: Order::Random,
        date: false,
        name: false,
        value: false,
        palette: false,
        size: false,
        colors: false,
        label: false,
        timer: None,
        reading: None,
        index: None,
        grid: None,
        from: None,
        to: None,
        file: None,
        sample: false,
        thumbnails: false,
        update_image_data: false,
        copy_selection: None,
        move_selection: None,
        move_label: None,
        all_label_move_target: None,
        width: None,
        height: None,
        extraction: false,
    }
}

fn three_pictures() -> EntryList {
    vec![
        make_entry(String::from("p/c.jpg"), 1, 1, 0, Rank::NoStar),
        make_entry(String::from("p/a.jpg"), 1, 1, 0, Rank::NoStar),
        make_entry(String::from("p/b.jpg"), 1, 1, 0, Rank::NoStar),
    ]
}

#[test]
fn window_sizes_come_from_options_then_environment_then_default() {
    let mut a = args();
    assert_eq!(1000, a.width(None));
    assert_eq!(1200, a.width(Some(String::from("1200"))));
    assert_eq!(1000, a.width(Some(String::from("12x"))));
    assert_eq!(1000, a.width(Some(String::from("3000"))));
    assert_eq!(1000, a.height(Some(String::from("100"))));
    assert_eq!(101, a.height(Some(String::from("+101"))));
    a.width = Some(640);
    assert_eq!(640, a.width(Some(String::from("1200"))));
    a.height = Some(5000);
    assert_eq!(1000, a.height(None));
}

#[test]
fn integers_are_read_as_str_parse_reads_them() {
    assert_eq!(Some(42), parse_i32("42"));
    assert_eq!(Some(-42), parse_i32("-42"));
    assert_eq!(Some(7), parse_i32("+007"));
    assert_eq!(Some(i32::MAX), parse_i32("2147483647"));
    assert_eq!(Some(i32::MIN), parse_i32("-2147483648"));
    assert_eq!(None, parse_i32("2147483648"));
    assert_eq!(None, parse_i32(""));
    assert_eq!(None, parse_i32("-"));
    assert_eq!(None, parse_i32(" 1"));
    assert_eq!(None, parse_i32("1_000"));
    for s in ["0", "99", "-3", "+5", "a", "--1", "123456789012"] {
        assert_eq!(s.parse::<i32>().ok(), parse_i32(s));
    }
}

#[test]
fn grid_sizes_fall_back_to_one_or_ten() {
    let mut a = args();
    assert_eq!(1, a.grid_size());
    a.thumbnails = true;
    assert_eq!(10, a.grid_size());
    a.grid = Some(3);
    assert_eq!(3, a.grid_size());
    a.grid = Some(11);
    assert_eq!(10, a.grid_size());
    a.thumbnails = false;
    assert_eq!(1, a.grid_size());
}

#[test]
fn grid_size_options_are_read_from_1_to_10() {
    assert_eq!(Ok(4), less_than_11("4"));
    assert_eq!(Ok(10), less_than_11("10"));
    assert_eq!(Err(String::from("exceeds maximum of 10")), less_than_11("11"));
    assert_eq!(Err(String::from("less than minimum of 1")), less_than_11("0"));
    assert!(less_than_11("x").is_err());
}

#[test]
fn the_order_follows_the_first_flag_set() {
    let mut a = args();
    assert!(matches!(a.order(), Order::Random));
    a.label = true;
    assert!(matches!(a.order(), Order::Label));
    a.date = true;
    assert!(matches!(a.order(), Order::Date));
    a.name = true;
    assert!(matches!(a.order(), Order::Name));
}

#[test]
fn the_order_option_is_used_when_no_flag_is_set() {
    let mut a = args();
    a.order = Order::Name;
    assert!(matches!(a.order(), Order::Name));
    a.order = Order::Palette;
    assert!(matches!(a.order(), Order::Palette));
    a.size = true;
    assert!(matches!(a.order(), Order::Size));
}

#[test]
fn the_directory_comes_from_the_option_then_the_environment() {
    let mut a = args();
    assert_eq!("images/", a.path(None));
    assert_eq!("env/", a.path(Some(String::from("env/"))));
    a.directory = Some(String::from("arg"));
    assert_eq!("arg", a.path(Some(String::from("env/"))));
    assert!(!a.sample());
}

#[test]
fn a_missing_target_is_an_error() {
    assert_eq!(Ok(None), selection_target(&None, false));
    assert_eq!(Ok(Some(String::from("t"))), selection_target(&Some(String::from("t")), true));
    assert_eq!(
        Err(String::from("path t doesn't exist")),
        selection_target(&Some(String::from("t")), false)
    );
    let mut a = args();
    a.copy_selection = Some(String::from("c"));
    assert_eq!(Err(String::from("path c doesn't exist")), a.copy_selection_target(false));
    assert_eq!(Ok(None), a.move_selection_target(false));
    assert_eq!(Ok(None), a.all_label_move_target(true));
}

#[test]
fn a_repository_is_ordered_cut_and_placed_as_asked() {
    let mut a = args();
    a.name = true;
    a.from = Some(1);
    a.index = Some(1);
    a.extraction = true;
    let repository = setup_repository(&a, three_pictures(), None, None, None).unwrap();
    assert_eq!(2, repository.capacity());
    assert_eq!(1, repository.current_index());
    assert_eq!("c.jpg", repository.current_entry().unwrap().original_file_name());
    assert!(repository.palette_extract_on());
    a.index = Some(2);
    assert_eq!(
        Err(String::from("entry index out of range")),
        setup_repository(&a, three_pictures(), None, None, None).map(|r| r.capacity())
    );
}

fn stop_message(step: InitStep) -> Option<String> {
    match step {
        InitStep::Stop(m) => Some(m),
        _ => None,
    }
}

#[test]
fn a_start_stops_on_the_first_missing_target() {
    let mut a = args();
    a.copy_selection = Some(String::from("c"));
    a.move_selection = Some(String::from("m"));
    a.all_label_move_target = Some(String::from("l"));
    assert_eq!(
        Some(String::from("path l doesn't exist")),
        stop_message(init_repository(&a, false, false, false, Ok(three_pictures())))
    );
    assert_eq!(
        Some(String::from("path c doesn't exist")),
        stop_message(init_repository(&a, true, false, false, Ok(three_pictures())))
    );
    assert_eq!(
        Some(String::from("path m doesn't exist")),
        stop_message(init_repository(&a, true, true, false, Ok(three_pictures())))
    );
    match init_repository(&a, true, true, true, Ok(three_pictures())) {
        InitStep::Browse(r) => {
            assert_eq!(Some(String::from("c")), r.copy_selection_target());
            assert_eq!(Some(String::from("m")), r.move_selection_target());
            assert_eq!(Some(String::from("l")), r.all_label_move_target());
        },
        _ => panic!("the repository should be browsed"),
    }
}

#[test]
fn a_start_stops_on_a_failed_read() {
    let a = args();
    assert_eq!(
        Some(String::from("no entries in the selection")),
        stop_message(init_repository(&a, false, false, false, Err(String::from("no entries in the selection"))))
    );
}

#[test]
fn a_start_may_only_update_thumbnails_or_move_labelled_pictures() {
    let mut a = args();
    a.update_image_data = true;
    a.move_label = Some(vec![String::from("cats"), String::from("t")]);
    match init_repository(&a, false, false, false, Ok(three_pictures())) {
        InitStep::UpdateThumbnails(list, m) => {
            assert_eq!(3, list.len());
            assert_eq!("updating thumbnails done", m);
        },
        _ => panic!("thumbnails should be updated"),
    }
    a.update_image_data = false;
    match init_repository(&a, false, false, false, Ok(three_pictures())) {
        InitStep::MoveLabel(list, label, target) => {
            assert_eq!(3, list.len());
            assert_eq!("cats", label);
            assert_eq!("t", target);
        },
        _ => panic!("labelled pictures should be moved"),
    }
    assert_eq!("move entries done", label_move_end(Ok(())));
    assert_eq!("path t doesn't exist", label_move_end(Err(String::from("path t doesn't exist"))));
}

#[test]
fn a_start_browses_the_pictures_in_the_order_option() {
    let mut a = args();
    a.order = Order::Name;
    a.index = Some(2);
    match init_repository(&a, false, false, false, Ok(three_pictures())) {
        InitStep::Browse(r) => {
            assert_eq!(3, r.capacity());
            assert_eq!(2, r.current_index());
            assert_eq!("c.jpg", r.current_entry().unwrap().original_file_name());
        },
        _ => panic!("the repository should be browsed"),
    }
    a.index = Some(3);
    assert_eq!(
        Some(String::from("entry index out of range")),
        stop_message(init_repository(&a, false, false, false, Ok(three_pictures())))
    );
}
