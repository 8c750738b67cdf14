use gallsh::paths::{
    directory, file_name_of, image_data_file_path, is_thumbnail, join, original_file_name,
    original_file_path, thumbnail_file_path,
};

#[test]
fn thumbnail_file_path_is_file_path_with_an_add_thumb_suffix() {
    assert_eq!("photos/fooTHUMB.jpeg", thumbnail_file_path("photos/foo.jpeg"));
}

#[test]
fn original_file_name_is_rid_of_any_thumb_suffix_and_path() {
    assert_eq!("foo.jpeg", original_file_name("photos/fooTHUMB.jpeg"));
}

#[test]
fn thumbnail_file_path_is_added_the_thumb_suffix() {
    assert_eq!("photos/fooTHUMB.jpeg", thumbnail_file_path("photos/foo.jpeg"));
}

#[test]
fn image_data_file_path_is_added_the_image_data_suffix_and_json_extension() {
    assert_eq!("photos/fooIMAGE_DATA.json", image_data_file_path("photos/foo.jpeg"));
}

#[test]
fn the_thumbnail_of_a_thumbnail_is_itself() {
    let thumbnail = thumbnail_file_path("photos/foo.jpeg");
    assert_eq!(thumbnail, thumbnail_file_path(&thumbnail));
    assert!(is_thumbnail(&thumbnail));
    assert!(!is_thumbnail("photos/foo.jpeg"));
}

#[test]
fn the_original_of_a_thumbnail_is_the_picture() {
    assert_eq!("photos/foo.jpeg", original_file_path(&thumbnail_file_path("photos/foo.jpeg")));
    assert_eq!("photos/foo.jpeg", original_file_path("photos/foo.jpeg"));
}

#[test]
fn a_picture_and_its_thumbnail_share_their_data_file() {
    let thumbnail = thumbnail_file_path("a/b/c.png");
    assert_eq!("a/b/cTHUMB.png", thumbnail);
    assert_eq!(image_data_file_path("a/b/c.png"), image_data_file_path(&thumbnail));
    assert_eq!("a/b/cIMAGE_DATA.json", image_data_file_path(&thumbnail));
}

#[test]
fn only_the_last_dot_starts_the_extension() {
    assert_eq!("x/a.b.cTHUMB.jpg", thumbnail_file_path("x/a.b.c.jpg"));
    assert_eq!("x/a.b.cIMAGE_DATA.json", image_data_file_path("x/a.b.c.jpg"));
}

#[test]
fn the_directory_of_a_file_is_the_last_part_of_its_parent() {
    assert_eq!("photos", directory("home/me/photos/foo.jpeg"));
    assert_eq!("photos", directory("photos/foo.jpeg"));
    assert_eq!("/", directory("/foo.jpeg"));
}

#[test]
fn join_adds_a_separator_only_where_needed() {
    assert_eq!("dir/name", join("dir", "name"));
    assert_eq!("dir/name", join("dir/", "name"));
    assert_eq!("name", join("", "name"));
    assert_eq!("/abs", join("dir", "/abs"));
    assert_eq!("./foo.jpeg", join(".", "foo.jpeg"));
}

#[test]
fn the_file_name_follows_the_last_slash() {
    assert_eq!("foo.jpeg", file_name_of("a/b/foo.jpeg"));
    assert_eq!("foo.jpeg", file_name_of("foo.jpeg"));
    assert_eq!("", file_name_of("a/"));
}

#[test]
fn repeated_separators_before_a_name_count_once() {
    assert_eq!("a/bTHUMB.jpg", thumbnail_file_path("a//b.jpg"));
    assert_eq!("a/b.jpg", original_file_path("a//bTHUMB.jpg"));
    assert_eq!("a/bIMAGE_DATA.json", image_data_file_path("a//b.jpg"));
    assert_eq!("a", directory("x/a//b.jpg"));
    assert_eq!("/bTHUMB.jpg", thumbnail_file_path("/b.jpg"));
    assert_eq!("/", directory("/b.jpg"));
    assert_eq!("a//b.jpg", original_file_path("a//b.jpg"));
}

#[test]
fn a_thumbnail_leads_back_to_its_picture() {
    for p in ["a/b.jpg", "/x/y/pic.png", "pic.jpeg"] {
        let t = thumbnail_file_path(p);
        assert!(is_thumbnail(&t));
        assert_eq!(p, original_file_path(&t));
        assert_eq!(original_file_name(p), original_file_name(&t));
    }
}
