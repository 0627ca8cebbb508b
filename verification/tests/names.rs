use epub_tailor::names::{PathSet, reserve_unique, reserve_unique_image_path};

fn chars(s: &str) -> Vec<char> {
    s.chars().collect()
}

#[test]
fn a_free_name_is_taken_as_is() {
    let mut reserved = PathSet::new();
    assert_eq!(reserve_unique(&mut reserved, "OEBPS/images", "pic", "jpg"), "OEBPS/images/pic.jpg");
    assert!(reserved.contains(&chars("OEBPS/images/pic.jpg")));
}

#[test]
fn colliding_names_count_up_from_one() {
    let mut reserved = PathSet::new();
    assert_eq!(reserve_unique(&mut reserved, "d", "a", "png"), "d/a.png");
    assert_eq!(reserve_unique(&mut reserved, "d", "a", "png"), "d/a-1.png");
    assert_eq!(reserve_unique(&mut reserved, "d", "a", "png"), "d/a-2.png");
    assert_eq!(reserve_unique(&mut reserved, "", "a", "png"), "a.png");
}

#[test]
fn a_numbered_name_already_taken_is_skipped() {
    let mut reserved = PathSet::new();
    reserved.insert(&chars("d/a.png"));
    reserved.insert(&chars("d/a-1.png"));
    assert_eq!(reserve_unique(&mut reserved, "d", "a", "png"), "d/a-2.png");
}

#[test]
fn image_paths_count_up_from_two() {
    let mut reserved = PathSet::new();
    assert_eq!(reserve_unique_image_path(&mut reserved, "art-pic.png"), "OEBPS/images/art-pic.png");
    assert_eq!(reserve_unique_image_path(&mut reserved, "art-pic.png"), "OEBPS/images/art-pic-2.png");
    assert_eq!(reserve_unique_image_path(&mut reserved, "noext"), "OEBPS/images/noext");
    assert_eq!(reserve_unique_image_path(&mut reserved, "noext"), "OEBPS/images/noext-2");
    assert_eq!(reserve_unique_image_path(&mut reserved, ".hidden"), "OEBPS/images/.hidden");
}
