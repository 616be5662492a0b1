use image_server::select::{choose_image, count_eligible, has_image_extension};

fn name(s: &str) -> Vec<u8> {
    s.as_bytes().to_vec()
}

#[test]
fn extension_allow_list() {
    assert!(has_image_extension(&name("photo.jpg")));
    assert!(has_image_extension(&name("photo.jpeg")));
    assert!(has_image_extension(&name("photo.png")));
    assert!(has_image_extension(&name("photo.bmp")));
    assert!(!has_image_extension(&name("photo.gif")));
    assert!(!has_image_extension(&name("photo.JPG")));
    assert!(!has_image_extension(&name("jpg")));
    assert!(!has_image_extension(&name("")));
    assert!(!has_image_extension(&name("archive.jpg.txt")));
    // A bare dotfile has no extension before the dot.
    assert!(!has_image_extension(&name(".jpg")));
    assert!(!has_image_extension(&name(".bmp")));
    assert!(has_image_extension(&name("a.bmp")));
}

#[test]
fn count_matches_eligible_names() {
    assert_eq!(count_eligible(&vec![]), 0);
    let names = vec![name("a.txt"), name("b.png"), name("c.jpg"), name(".jpg")];
    assert_eq!(count_eligible(&names), 2);
}

#[test]
fn empty_directory_yields_no_selection() {
    let names: Vec<Vec<u8>> = vec![];
    assert_eq!(choose_image(&names, 0), None);
    assert_eq!(choose_image(&names, 17), None);
}

#[test]
fn all_non_image_directory_yields_no_selection() {
    let names = vec![name("notes.txt"), name("paper.pdf"), name("song.mp3")];
    assert_eq!(choose_image(&names, 0), None);
    assert_eq!(choose_image(&names, 2), None);
}

#[test]
fn selection_cycles_over_eligible_names() {
    let names = vec![name("a.txt"), name("b.png"), name("c.jpg"), name("d.doc")];
    assert_eq!(choose_image(&names, 0), Some(1));
    assert_eq!(choose_image(&names, 1), Some(2));
    assert_eq!(choose_image(&names, 2), Some(1));
    assert_eq!(choose_image(&names, 3), Some(2));
}
