use gallsh::entries::{Entries, FoundPicture};
use gallsh::order::Order;
use gallsh::picture_io::{
    creation_answer, directory_candidates, next_step, path_check_step, thumbnail_plan, PathStep,
    Progress,
};
use gallsh::rank::Rank;

fn strings(v: &[&str]) -> Vec<String> {
    v.iter().map(|s| s.to_string()).collect()
}

fn found(path: &str, size: u64, rank: Rank) -> FoundPicture {
    FoundPicture { path: path.to_string(), size, modified: 0, colors: 1, rank }
}

fn paths_of(entries: &Entries) -> Vec<String> {
    entries.entry_list.iter().map(|e| e.file_path.clone()).collect()
}

#[test]
fn a_directory_listing_keeps_files_of_pictures_the_pattern_matches() {
    let paths = strings(&["d", "d/a.jpg", "d/aTHUMB.jpg", "d/b.png", "d/c.txt", "d/e1.jpeg", "d/sub.jpg"]);
    let is_file = vec![false, true, true, true, true, true, false];
    assert_eq!(Some(vec![1, 3, 5]), directory_candidates(&paths, &is_file, &None));
    assert_eq!(Some(vec![5]), directory_candidates(&paths, &is_file, &Some(String::from("e[0-9]"))));
    assert_eq!(None, directory_candidates(&paths, &is_file, &Some(String::from("("))));
    let folders = vec![false; paths.len()];
    assert_eq!(Some(vec![]), directory_candidates(&paths, &folders, &Some(String::from("("))));
}

#[test]
fn pictures_found_in_a_directory_are_ordered_and_cut() {
    let pictures = vec![
        found("d/c.jpg", 3, Rank::NoStar),
        found("d/a.jpg", 1, Rank::NoStar),
        found("d/b.jpg", 2, Rank::NoStar),
        found("d/d.jpg", 4, Rank::NoStar),
    ];
    let entries = Entries::from_directory(pictures, Some(1), Some(2), Order::Name, 2);
    assert_eq!(strings(&["d/b.jpg", "d/c.jpg"]), paths_of(&entries));
    assert_eq!(3, entries.entry_list[1].file_size);
    assert_eq!(0, entries.navigator.index());
    assert!(matches!(entries.order, Some(Order::Name)));
}

#[test]
fn a_reading_list_keeps_each_path_once_at_its_first_place() {
    let pictures = vec![
        found("d/b.jpg", 1, Rank::OneStar),
        found("d/a.jpg", 2, Rank::ThreeStars),
        found("d/b.jpg", 3, Rank::TwoStars),
        found("d/c.jpg", 4, Rank::ThreeStars),
    ];
    let entries = Entries::from_list(pictures, Order::Value, 1);
    assert_eq!(strings(&["d/a.jpg", "d/c.jpg", "d/b.jpg"]), paths_of(&entries));
    assert_eq!(1, entries.entry_list[2].file_size);
    assert!(matches!(entries.entry_list[2].image_data.rank, Rank::OneStar));
}

#[test]
fn thumbnails_are_planned_for_pictures_without_one_and_orphans_deleted() {
    let images = strings(&["d/a.jpg", "d/b.png"]);
    let thumbnails = strings(&["d/aTHUMB.jpg", "d/cTHUMB.jpg"]);
    let (to_create, to_delete) = thumbnail_plan(&images, &thumbnails, &vec![true, false]);
    assert_eq!(strings(&["d/b.png"]), to_create);
    assert_eq!(strings(&["d/cTHUMB.jpg", "d/cIMAGE_DATA.json"]), to_delete);
    let (to_create, to_delete) = thumbnail_plan(&images, &images, &vec![true, true]);
    assert_eq!(images, to_create);
    assert!(to_delete.is_empty());
}

#[test]
fn a_target_directory_is_accepted_asked_for_or_refused() {
    assert!(matches!(path_check_step("t", true, true, true), PathStep::Accept));
    match path_check_step("t", false, true, false) {
        PathStep::Reject(m) => assert_eq!("path t is not a directory", m),
        _ => panic!("a file is no directory"),
    }
    match path_check_step("t", true, false, false) {
        PathStep::Ask(q) => assert_eq!("directory t doesn't exist. Create ?", q),
        _ => panic!("a missing directory may be created"),
    }
    match path_check_step("t", false, false, false) {
        PathStep::Reject(m) => assert_eq!("path t doesn't exist", m),
        _ => panic!("a missing directory is refused"),
    }
    assert_eq!(Ok(()), creation_answer("yes\n"));
    assert_eq!(Ok(()), creation_answer("Y"));
    assert_eq!(Err(String::from("directory creation cancelled")), creation_answer("no\n"));
    assert_eq!(Err(String::from("directory creation cancelled")), creation_answer(""));
}

#[test]
fn a_run_of_file_operations_stops_at_the_first_failure() {
    assert!(matches!(next_step(0, 3, Ok(())), Progress::Next(1)));
    assert!(matches!(next_step(2, 3, Ok(())), Progress::Done));
    match next_step(1, 3, Err(String::from("disk full"))) {
        Progress::Failed(m) => assert_eq!("disk full", m),
        _ => panic!("a failure stops the run"),
    }
}
