use gallsh::entry::{make_entry, EntryList};
use gallsh::image::{color_count, rgba_key};
use gallsh::picture_io::{
    accepts_path, copy_entry, copy_entry_filename_to_current_dir, delete_entry,
    entries_with_label, entry_candidate, first_of_each_directory, is_valid_extension, label_directory, matches_pattern,
    move_entries_with_label_to_target, read_entries, reading_list_paths, sample_entries,
    set_palette_colors, thumbnail_format, ThumbnailFormat,
};
use gallsh::rank::Rank;
use gallsh::repository::Repository;

fn entry(path: &str) -> gallsh::entry::Entry {
    make_entry(String::from(path), 10, 3, 0, Rank::NoStar)
}

fn pairs(v: &[(&str, &str)]) -> Vec<(String, String)> {
    v.iter().map(|(a, b)| (a.to_string(), b.to_string())).collect()
}

#[test]
fn only_pictures_that_are_not_thumbnails_are_accepted() {
    assert!(accepts_path("photos/foo.jpeg", true, true));
    assert!(accepts_path("photos/foo.PNG", true, true));
    assert!(!accepts_path("photos/fooTHUMB.jpeg", true, true));
    assert!(!accepts_path("photos/foo.gif", true, true));
    assert!(!accepts_path("photos/foo", true, true));
    assert!(!accepts_path("photos/.jpg", true, true));
    assert!(!accepts_path("photos/foo.jpeg", false, true));
    assert!(!accepts_path("photos/foo.jpeg", true, false));
}

#[test]
fn extensions_of_pictures_are_recognised() {
    for e in ["jpg", "jpeg", "png", "JPG", "JPEG", "PNG"] {
        assert!(is_valid_extension(e));
    }
    assert!(!is_valid_extension("Jpg"));
    assert!(!is_valid_extension("gif"));
    assert!(matches!(thumbnail_format("png"), ThumbnailFormat::Png));
    assert!(matches!(thumbnail_format("PNG"), ThumbnailFormat::Png));
    assert!(matches!(thumbnail_format("JPEG"), ThumbnailFormat::Jpeg));
    assert!(matches!(thumbnail_format("jpg"), ThumbnailFormat::Jpeg));
}

#[test]
fn a_pattern_selects_the_paths_it_matches() {
    assert!(matches_pattern("1.*4", "dir/a1b4.jpg"));
    assert!(!matches_pattern("1.*4", "dir/a4b1.jpg"));
    assert!(!matches_pattern("foo(bar", "foo(bar"));
    assert!(entry_candidate("dir/a1b4.jpg", true, &Some(String::from("1.*4"))));
    assert!(!entry_candidate("dir/a4b1.jpg", true, &Some(String::from("1.*4"))));
    assert!(entry_candidate("dir/a4b1.jpg", true, &None));
    assert!(!entry_candidate("dir/a1b4.jpg", true, &Some(String::from("("))));
}

#[test]
fn a_reading_list_names_each_picture_once_without_thumbnails() {
    let content = "a/one.jpg\r\na/twoTHUMB.jpg\nb/three.png\na/one.jpg\n\nlast.jpg";
    assert_eq!(
        vec!["a/one.jpg", "b/three.png", "", "last.jpg"],
        reading_list_paths(content)
    );
    assert_eq!(Vec::<String>::new(), reading_list_paths(""));
    assert_eq!(vec!["x.jpg"], reading_list_paths("x.jpg\n"));
    assert_eq!(vec!["x.jpg\r"], reading_list_paths("x.jpg\r"));
}

#[test]
fn a_sample_keeps_one_picture_of_each_directory() {
    let list: EntryList = vec![
        entry("a/x/1.jpg"),
        entry("a/y/2.jpg"),
        entry("b/x/3.jpg"),
        entry("c/z/4.jpg"),
    ];
    let sample = sample_entries(list);
    let mut directories: Vec<String> = sample.iter().map(|e| e.directory()).collect();
    directories.sort();
    assert_eq!(vec!["x", "y", "z"], directories);
}

#[test]
fn reading_nothing_is_an_error() {
    assert_eq!(Err(String::from("no entries in the selection")), read_entries(Vec::new(), false));
    assert_eq!(Err(String::from("no entries in the selection")), read_entries(Vec::new(), true));
    let list: EntryList = vec![entry("d/1.jpg"), entry("d/2.jpg")];
    assert_eq!(Ok(list.clone()), read_entries(list.clone(), false));
    assert_eq!(1, read_entries(list, true).unwrap().len());
}

#[test]
fn copying_a_picture_copies_its_three_files() {
    let e = entry("photos/foo.jpeg");
    assert_eq!(
        pairs(&[
            ("photos/foo.jpeg", "target/foo.jpeg"),
            ("photos/fooTHUMB.jpeg", "target/fooTHUMB.jpeg"),
            ("photos/fooIMAGE_DATA.json", "target/fooIMAGE_DATA.json"),
        ]),
        copy_entry(&e, "target")
    );
    assert_eq!(
        vec!["photos/foo.jpeg", "photos/fooTHUMB.jpeg", "photos/fooIMAGE_DATA.json"],
        delete_entry(&e)
    );
    assert_eq!(
        (String::from("photos/foo.jpeg"), String::from("./foo.jpeg")),
        copy_entry_filename_to_current_dir(&e)
    );
}

#[test]
fn labelled_pictures_are_found_and_moved_under_their_label() {
    let mut list: EntryList = vec![entry("p/a.jpg"), entry("p/b.jpg"), entry("p/c.jpg")];
    list[0].set_label("sea");
    list[2].set_label("sky");
    assert_eq!(vec![0], entries_with_label(&list, "sea"));
    assert_eq!(vec![1], entries_with_label(&list, ""));
    assert_eq!(
        vec![(0, String::from("out/sea")), (2, String::from("out/sky"))],
        move_entries_with_label_to_target(&list, "out")
    );
    assert_eq!("out/sea", label_directory("out/", "sea"));
}

#[test]
fn the_selection_lists_the_files_of_selected_pictures() {
    let mut list: EntryList = vec![entry("p/a.jpg"), entry("p/b.jpg"), entry("p/c.jpg")];
    list[1].set_select(true);
    list[2].delete = true;
    let repository = Repository::from_entries(list, 1, None, None, None, false);
    let files = vec!["p/b.jpg", "p/bTHUMB.jpg", "p/bIMAGE_DATA.json"];
    assert_eq!(files, repository.save_select_entries());
    assert_eq!(files, repository.delete_select_entries());
    assert_eq!(
        vec!["p/c.jpg", "p/cTHUMB.jpg", "p/cIMAGE_DATA.json"],
        repository.delete_entries()
    );
    assert_eq!(
        pairs(&[
            ("p/b.jpg", "t/b.jpg"),
            ("p/bTHUMB.jpg", "t/bTHUMB.jpg"),
            ("p/bIMAGE_DATA.json", "t/bIMAGE_DATA.json"),
        ]),
        repository.copy_select_entries("t")
    );
    assert_eq!(
        (String::from("p/a.jpg"), String::from("./a.jpg")),
        repository.copy_temp()
    );
}

#[test]
fn a_palette_is_packed_and_sorted() {
    let mut e = entry("p/a.jpg");
    set_palette_colors(&mut e, &[(1, 2, 3), (0, 0, 1), (255, 255, 255)]);
    assert_eq!([0, 0, 0, 0, 0, 0, 1, 0x010203, 0xffffff], e.image_data.palette);
}

#[test]
fn colours_are_counted_once() {
    assert_eq!(0x01020304, rgba_key([1, 2, 3, 4]));
    assert_eq!(0xff000080, rgba_key([255, 0, 0, 128]));
    let pixels = [[1, 2, 3, 4], [1, 2, 3, 4], [0, 0, 0, 0], [1, 2, 3, 5]];
    assert_eq!(3, color_count(&pixels));
    assert_eq!(0, color_count(&[]));
}

#[test]
fn the_first_picture_of_each_directory_is_kept_in_order() {
    let list: EntryList = vec![entry("a/1.jpg"), entry("b/1.jpg"), entry("a/2.jpg"), entry("c/d/3.jpg"), entry("b/2.jpg")];
    let kept: Vec<String> = first_of_each_directory(list).iter().map(|e| e.file_path.clone()).collect();
    assert_eq!(vec!["a/1.jpg", "b/1.jpg", "c/d/3.jpg"], kept);
}
