use fetefoto::ast::AST;
use fetefoto::db::{
    delete_images_statement, group_image_rows, hash_condition, image_id_select_statement,
    image_rows_statement, images_insert_statement, links_insert_statement,
    matching_hashes_statement, name_condition, sqlite_url, tag_ids_select_statement,
    tags_insert_statement, union_of_tags, ImageRow,
};
use fetefoto::image::Image;

fn s(x: &str) -> String {
    String::from(x)
}

fn row(hash: &str, fp: &str, name: &str) -> ImageRow {
    ImageRow { hash: Some(s(hash)), fp: Some(s(fp)), name: Some(s(name)) }
}

#[test]
fn update_images_in_database() {}

#[test]
fn same_image_compares_digests() {
    let a = row("h1", "a.png", "x");
    let b = row("h1", "b.png", "y");
    let c = row("h2", "a.png", "x");
    assert!(a.same_image(&b));
    assert!(!a.same_image(&c));
    let none = ImageRow::default();
    assert!(none.same_image(&ImageRow::default()));
    assert!(!none.same_image(&a));
}

#[test]
fn statements_for_adding_images() {
    let im1 = Image::new_with_tags(s("test/abc.gif"), Some(b"abc"), vec![s("hi"), s("bye")]).unwrap();
    let im2 = Image::new_with_tags(s("test/def.gif"), Some(b""), vec![s("hi")]).unwrap();
    let ims = vec![im1, im2];
    assert_eq!(
        images_insert_statement(&ims),
        "INSERT OR IGNORE INTO images (fp, hash) VALUES \
         ('test/abc.gif', 'ungWv48Bz+pBQUDeXa4iI7ADYaOWF3qctBD/YfIAFa0='), \
         ('test/def.gif', '47DEQpj8HBSa+/TImW+5JCeuQeRkm5NMpJWZG3hSuFU=');"
    );
    let mut tags = union_of_tags(&ims);
    tags.sort();
    assert_eq!(tags, vec![s("bye"), s("hi")]);
    assert_eq!(
        tags_insert_statement(&tags),
        "INSERT OR IGNORE INTO tags (name) VALUES ('bye'), ('hi');"
    );
    assert_eq!(
        tag_ids_select_statement(&tags),
        "SELECT (id) FROM tags WHERE name = 'bye' OR name = 'hi';"
    );
    assert_eq!(
        image_id_select_statement("h=="),
        "SELECT (id) FROM images WHERE hash = 'h==';"
    );
    assert_eq!(
        links_insert_statement(7, &vec![1, 20, 4294967295]),
        "INSERT INTO images_to_tags (image_id, tag_id) VALUES (7, 1), (7, 20), (7, 4294967295);"
    );
    assert_eq!(
        links_insert_statement(0, &vec![0]),
        "INSERT INTO images_to_tags (image_id, tag_id) VALUES (0, 0);"
    );
}

#[test]
fn conditions_and_lookups() {
    assert_eq!(name_condition(&vec![s("a")]), "name = 'a'");
    assert_eq!(name_condition(&vec![]), "");
    assert_eq!(hash_condition(&vec![s("x"), s("y")]), "hash = 'x' OR hash = 'y'");
    assert_eq!(
        delete_images_statement(&vec![s("test/test2/ghi.jpg")]),
        "DELETE FROM images WHERE hash = 'test/test2/ghi.jpg';"
    );
    let q = AST::parse_query("(hi AND bye) OR NOT 你好");
    assert_eq!(
        matching_hashes_statement(&q.to_string()),
        "SELECT hash FROM images INNER JOIN images_to_tags ON images.id = images_to_tags.image_id \
         INNER JOIN tags ON images_to_tags.tag_id = tags.id \
         WHERE ((name = 'hi' AND name = 'bye') OR (NOT name = '你好'));"
    );
    assert_eq!(
        image_rows_statement(&vec![s("h1")]),
        "SELECT fp, hash, name FROM images INNER JOIN images_to_tags ON images.id = images_to_tags.image_id \
         INNER JOIN tags ON images_to_tags.tag_id = tags.id WHERE hash = 'h1';"
    );
    assert_eq!(sqlite_url("fetefoto.db"), "sqlite://fetefoto.db");
}

#[test]
fn rows_are_gathered_by_digest() {
    let rows = vec![
        row("h1", "test/abc.gif", "hi"),
        row("h2", "test/def.gif", "你好"),
        row("h1", "test/abc-copy.gif", "bye"),
        row("h1", "test/abc.gif", "hi"),
    ];
    let groups = group_image_rows(&rows);
    assert_eq!(groups.len(), 2);
    assert_eq!(groups[0].hash, "h1");
    assert_eq!(groups[0].fp, "test/abc.gif");
    let mut t0 = groups[0].tags.clone();
    t0.sort();
    assert_eq!(t0, vec![s("bye"), s("hi")]);
    assert_eq!(groups[1].hash, "h2");
    assert_eq!(groups[1].fp, "test/def.gif");
    assert_eq!(groups[1].tags, vec![s("你好")]);
    assert!(group_image_rows(&vec![]).is_empty());
}
