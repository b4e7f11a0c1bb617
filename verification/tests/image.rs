use fetefoto::image::{Image, ImageError};

fn abc_gif() -> Vec<u8> {
    b"GIF89a\x01\x00\x01\x00\x80\x00\x00\xff\xff\xff\x00\x00\x00;".to_vec()
}

#[test]
fn add_tag_to_image() {
    let data = abc_gif();
    let mut input: Image = Image::new(String::from("test/abc.gif"), Some(&data)).unwrap();
    let output: Image = Image::new_with_tags(
        String::from("test/abc.gif"),
        Some(&data),
        vec![String::from("hi")],
    )
    .unwrap();

    input.add_tag(String::from("hi"));

    assert_eq!(input, output);
}

#[test]
fn add_unicode_tag_to_image() {
    let data = abc_gif();
    let mut input: Image = Image::new(String::from("test/abc.gif"), Some(&data)).unwrap();
    let output: Image = Image::new_with_tags(
        String::from("test/abc.gif"),
        Some(&data),
        vec![String::from("你好")],
    )
    .unwrap();

    input.add_tag(String::from("你好"));

    assert_eq!(input, output);
}

#[test]
fn remove_tag_from_image() {
    let data = abc_gif();
    let mut input: Image = Image::new_with_tags(
        String::from("test/abc.gif"),
        Some(&data),
        vec![String::from("hi")],
    )
    .unwrap();
    let output: Image = Image::new(String::from("test/abc.gif"), Some(&data)).unwrap();

    input.remove_tag("hi");

    assert_eq!(input, output);
}

#[test]
fn digest_of_known_contents() {
    // SHA-256 of the empty input, and of "abc", in padded Base64.
    assert_eq!(Image::hash_image(b""), "47DEQpj8HBSa+/TImW+5JCeuQeRkm5NMpJWZG3hSuFU=");
    assert_eq!(Image::hash_image(b"abc"), "ungWv48Bz+pBQUDeXa4iI7ADYaOWF3qctBD/YfIAFa0=");
}

#[test]
fn image_records_path_and_digest() {
    let im = Image::new(String::from("a/b.jpg"), Some(b"abc")).unwrap();
    assert_eq!(im.get_fp(), "a/b.jpg");
    assert_eq!(im.get_hash(), "ungWv48Bz+pBQUDeXa4iI7ADYaOWF3qctBD/YfIAFa0=");
    assert!(im.get_tags().is_empty());
}

#[test]
fn unreadable_file_is_read_fail() {
    assert_eq!(Image::new(String::from("gone.png"), None).unwrap_err(), ImageError::ReadFail);
    assert_eq!(
        Image::new_with_tags(String::from("gone.png"), None, vec![String::from("x")]).unwrap_err(),
        ImageError::ReadFail
    );
}

#[test]
fn redundant_tags_count_once() {
    let im = Image::new_with_tags(
        String::from("test/test2/ghi.jpg"),
        Some(b"ghi"),
        vec![String::from("hi"), String::from("hi"), String::from("yo")],
    )
    .unwrap();
    let mut tags: Vec<&str> = im.get_tags().iter().map(|s| s.as_str()).collect();
    tags.sort();
    assert_eq!(tags, vec!["hi", "yo"]);
}

#[test]
fn adding_a_tag_twice_and_removing_it() {
    let mut im = Image::new(String::from("p.png"), Some(b"p")).unwrap();
    im.add_tag(String::from("sun"));
    im.add_tag(String::from("sun"));
    assert_eq!(im.get_tags().len(), 1);
    im.remove_tag("sun");
    assert!(im.get_tags().is_empty());
    im.remove_tag("sun");
    assert_eq!(im, Image::new(String::from("elsewhere.png"), Some(b"p")).unwrap());
}

#[test]
fn equality_looks_at_digest_and_tags() {
    let a = Image::new_with_tags(String::from("a.png"), Some(b"x"), vec![String::from("t")]).unwrap();
    let b = Image::new_with_tags(String::from("b.png"), Some(b"x"), vec![String::from("t")]).unwrap();
    let c = Image::new_with_tags(String::from("a.png"), Some(b"y"), vec![String::from("t")]).unwrap();
    let d = Image::new_with_tags(String::from("a.png"), Some(b"x"), vec![String::from("u")]).unwrap();
    assert_eq!(a, b);
    assert_ne!(a, c);
    assert_ne!(a, d);
}

#[test]
fn leading_hashes_stop_at_unreadable_file() {
    let contents = vec![Some(b"".to_vec()), Some(b"abc".to_vec()), None, Some(b"zzz".to_vec())];
    assert_eq!(
        fetefoto::image::leading_hashes(&contents),
        vec![
            String::from("47DEQpj8HBSa+/TImW+5JCeuQeRkm5NMpJWZG3hSuFU="),
            String::from("ungWv48Bz+pBQUDeXa4iI7ADYaOWF3qctBD/YfIAFa0="),
        ]
    );
    assert!(fetefoto::image::leading_hashes(&vec![None]).is_empty());
}

#[test]
fn digest_survives_tag_changes() {
    let data = abc_gif();
    let mut im = Image::new(String::from("test/abc.gif"), Some(&data)).unwrap();
    im.add_tag(String::from("hi"));
    im.remove_tag("hi");
    im.add_tag(String::from("bye"));
    let h = Image::hash_image(&data);
    assert_eq!(im.get_hash(), h);
    assert_eq!(h.chars().count(), 44);
    assert!(h.ends_with('='));
}
