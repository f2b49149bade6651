use haiku_render::listing::{
    collect_image_list, image_file_name, is_image_file, to_js_list, ImageList,
};

#[test]
fn save_file_name_is_decimal() {
    assert_eq!(image_file_name(123, 17), "haiku_123_17.webp");
    assert_eq!(image_file_name(0, 0), "haiku_0_0.webp");
    assert_eq!(image_file_name(1700000000, 46), "haiku_1700000000_46.webp");
}

#[test]
fn to_comma_separated_quotes_and_joins() {
    let list = ImageList { images: vec!["a.png".to_string(), "b.webp".to_string()] };
    assert_eq!(list.to_comma_separated(), "\"a.png\", \"b.webp\"");
}

#[test]
fn to_comma_separated_empty_and_single() {
    let empty = ImageList { images: Vec::new() };
    assert_eq!(empty.to_comma_separated(), "");
    let one = ImageList { images: vec!["x.gif".to_string()] };
    assert_eq!(one.to_comma_separated(), "\"x.gif\"");
}

#[test]
fn image_extensions_are_recognized_case_insensitively() {
    assert!(is_image_file("photo.jpg"));
    assert!(is_image_file("photo.JPEG"));
    assert!(is_image_file("photo.Png"));
    assert!(is_image_file("anim.gif"));
    assert!(is_image_file("tile.WebP"));
    assert!(!is_image_file("notes.txt"));
    assert!(!is_image_file("archive.tar.gz"));
    assert!(!is_image_file("noextension"));
    assert!(!is_image_file(".hidden"));
    assert!(!is_image_file("dotless."));
    assert!(!is_image_file(""));
}

#[test]
fn collect_filters_and_reverses() {
    let names = vec![
        "a.txt".to_string(),
        "b.png".to_string(),
        "c.jpg".to_string(),
        "d.log".to_string(),
        "e.webp".to_string(),
    ];
    let list = collect_image_list(&names);
    assert_eq!(list.images, vec!["e.webp", "c.jpg", "b.png"]);
}

#[test]
fn to_js_list_produces_the_gallery_string() {
    let names = vec!["a.txt".to_string(), "b.png".to_string(), "c.jpg".to_string()];
    assert_eq!(to_js_list(&names), "\"c.jpg\", \"b.png\"");
}
