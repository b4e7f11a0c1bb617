//! The catalogue's database side: rows read back from it, and the SQL text
//! of every statement the catalogue sends to it.
//!
//! The catalogue keeps three tables: `images (id, fp, hash)`, `tags (id,
//! name, parent_id)` and `images_to_tags (id, image_id, tag_id)`.

use vstd::prelude::*;

use crate::image::{contains_text, Image, ImageView};
use crate::text::{decimal, join, join_strings, push_decimal, str_equal, texts};

verus! {

/// One row of the join of the three tables: an image's digest and path and
/// the name of one of its tags. A column that was not selected is `None`.
#[derive(Debug, Default)]
pub struct ImageRow {
    pub hash: Option<String>,
    pub fp: Option<String>,
    pub name: Option<String>,
}

/// How the conditions of a tag filter are combined.
pub enum FilterType {
    AND,
    OR,
}

pub open spec fn opt_text(o: Option<String>) -> Option<Seq<char>> {
    match o {
        Some(s) => Some(s@),
        None => None,
    }
}

impl ImageRow {
    /// Whether two rows are about the same image: they carry the same digest
    /// (two rows without one count as the same).
    pub fn same_image(&self, other: &ImageRow) -> (res: bool)
        ensures
            res == (opt_text(self.hash) == opt_text(other.hash)),
    {
        match (&self.hash, &other.hash) {
            (Some(a), Some(b)) => str_equal(a.as_str(), b.as_str()),
            (None, None) => true,
            _ => false,
        }
    }
}

// ---------------------------------------------------------------------------
// Pieces of SQL text
// ---------------------------------------------------------------------------

/// Every text of `s`, with `before` in front of it and `after` behind it.
pub open spec fn wrap_all(s: Seq<Seq<char>>, before: Seq<char>, after: Seq<char>) -> Seq<Seq<char>> {
    s.map_values(|t: Seq<char>| before + t + after)
}

/// Every string of `parts`, with `before` in front of it and `after` behind it.
pub fn wrap_each(parts: &Vec<String>, before: &str, after: &str) -> (res: Vec<String>)
    ensures
        texts(res@) == wrap_all(texts(parts@), before@, after@),
{
    let mut res: Vec<String> = Vec::new();
    let mut i: usize = 0;
    while i < parts.len()
        invariant
            i <= parts.len(),
            texts(res@) =~= wrap_all(texts(parts@), before@, after@).take(i as int),
        decreases parts.len() - i,
    {
        let mut s = String::new();
        s.append(before);
        s.append(parts[i].as_str());
        s.append(after);
        let ghost prev = res@;
        res.push(s);
        assert(texts(res@) =~= texts(prev).push(before@ + parts@[i as int]@ + after@));
        i = i + 1;
    }
    res
}

/// The address under which the database file at `path` is opened.
pub open spec fn sqlite_url_text(path: Seq<char>) -> Seq<char> {
    "sqlite://"@ + path
}

pub fn sqlite_url(path: &str) -> (res: String)
    ensures
        res@ == sqlite_url_text(path@),
{
    let mut res = String::new();
    res.append("sqlite://");
    res.append(path);
    res
}

/// `name = 'n1' OR name = 'n2' OR ...`
pub open spec fn name_condition_text(names: Seq<Seq<char>>) -> Seq<char> {
    join(wrap_all(names, "name = '"@, "'"@), " OR "@)
}

pub fn name_condition(names: &Vec<String>) -> (res: String)
    ensures
        res@ == name_condition_text(texts(names@)),
{
    let parts = wrap_each(names, "name = '", "'");
    join_strings(&parts, " OR ")
}

/// `hash = 'h1' OR hash = 'h2' OR ...`
pub open spec fn hash_condition_text(hashes: Seq<Seq<char>>) -> Seq<char> {
    join(wrap_all(hashes, "hash = '"@, "'"@), " OR "@)
}

pub fn hash_condition(hashes: &Vec<String>) -> (res: String)
    ensures
        res@ == hash_condition_text(texts(hashes@)),
{
    let parts = wrap_each(hashes, "hash = '", "'");
    join_strings(&parts, " OR ")
}

// ---------------------------------------------------------------------------
// Adding images
// ---------------------------------------------------------------------------

pub open spec fn image_views(ims: Seq<Image>) -> Seq<ImageView> {
    ims.map_values(|im: Image| im@)
}

/// `('path', 'digest')` for one image.
pub open spec fn image_values_text(im: ImageView) -> Seq<char> {
    "('"@ + im.filepath + "', '"@ + im.hash + "')"@
}

/// The statement that records the images `ims` (paths and digests); an
/// image already recorded is left alone.
pub open spec fn images_insert_text(ims: Seq<ImageView>) -> Seq<char> {
    "INSERT OR IGNORE INTO images (fp, hash) VALUES "@ + join(
        ims.map_values(|im: ImageView| image_values_text(im)),
        ", "@,
    ) + ";"@
}

pub fn images_insert_statement(images: &Vec<Image>) -> (res: String)
    ensures
        res@ == images_insert_text(image_views(images@)),
{
    let mut values: Vec<String> = Vec::new();
    let mut i: usize = 0;
    while i < images.len()
        invariant
            i <= images.len(),
            texts(values@) =~= image_views(images@).map_values(
                |im: ImageView| image_values_text(im),
            ).take(i as int),
        decreases images.len() - i,
    {
        let mut s = String::new();
        s.append("('");
        s.append(images[i].get_fp());
        s.append("', '");
        s.append(images[i].get_hash());
        s.append("')");
        let ghost prev = values@;
        values.push(s);
        assert(texts(values@) =~= texts(prev).push(image_values_text(images@[i as int]@)));
        i = i + 1;
    }
    assert(texts(values@) =~= image_views(images@).map_values(
        |im: ImageView| image_values_text(im),
    ));
    let mut res = String::new();
    res.append("INSERT OR IGNORE INTO images (fp, hash) VALUES ");
    res.append(join_strings(&values, ", ").as_str());
    res.append(";");
    res
}

/// Every tag that one of the images `ims` carries.
pub open spec fn tag_union(ims: Seq<ImageView>) -> Set<Seq<char>>
    decreases ims.len(),
{
    if ims.len() == 0 {
        Set::empty()
    } else {
        tag_union(ims.drop_last()).union(ims.last().tags)
    }
}

/// Every tag that one of the images carries, each once.
pub fn union_of_tags(images: &Vec<Image>) -> (res: Vec<String>)
    ensures
        texts(res@).no_duplicates(),
        texts(res@).to_set() == tag_union(image_views(images@)),
{
    let mut res: Vec<String> = Vec::new();
    let mut i: usize = 0;
    while i < images.len()
        invariant
            i <= images.len(),
            texts(res@).no_duplicates(),
            texts(res@).to_set() =~= tag_union(image_views(images@).take(i as int)),
        decreases images.len() - i,
    {
        let tags = images[i].get_tags();
        let ghost start = texts(res@).to_set();
        let mut k: usize = 0;
        while k < tags.len()
            invariant
                k <= tags.len(),
                texts(res@).no_duplicates(),
                texts(res@).to_set() =~= start.union(texts(tags@).take(k as int).to_set()),
            decreases tags.len() - k,
        {
            let ghost before = res@;
            proof {
                texts(tags@).take(k as int).lemma_push_to_set_commute(tags@[k as int]@);
                assert(texts(tags@).take(k + 1) =~= texts(tags@).take(k as int).push(
                    tags@[k as int]@,
                ));
            }
            if !contains_text(&res, tags[k].as_str()) {
                res.push(tags[k].clone());
                assert(texts(res@) =~= texts(before).push(tags@[k as int]@));
                proof {
                    texts(before).lemma_push_to_set_commute(tags@[k as int]@);
                }
            } else {
                assert(texts(res@).to_set().contains(tags@[k as int]@));
            }
            k = k + 1;
        }
        assert(texts(tags@).take(tags.len() as int) =~= texts(tags@));
        assert(image_views(images@).take(i + 1).drop_last() =~= image_views(images@).take(
            i as int,
        ));
        i = i + 1;
    }
    assert(image_views(images@).take(images.len() as int) =~= image_views(images@));
    res
}

/// The statement that records the tags `tags`; a tag already recorded is
/// left alone.
pub open spec fn tags_insert_text(tags: Seq<Seq<char>>) -> Seq<char> {
    "INSERT OR IGNORE INTO tags (name) VALUES "@ + join(wrap_all(tags, "('"@, "')"@), ", "@) + ";"@
}

pub fn tags_insert_statement(tags: &Vec<String>) -> (res: String)
    ensures
        res@ == tags_insert_text(texts(tags@)),
{
    let values = wrap_each(tags, "('", "')");
    let mut res = String::new();
    res.append("INSERT OR IGNORE INTO tags (name) VALUES ");
    res.append(join_strings(&values, ", ").as_str());
    res.append(";");
    res
}

/// The query for the ids of the tags named `tags`.
pub open spec fn tag_ids_select_text(tags: Seq<Seq<char>>) -> Seq<char> {
    "SELECT (id) FROM tags WHERE "@ + name_condition_text(tags) + ";"@
}

pub fn tag_ids_select_statement(tags: &Vec<String>) -> (res: String)
    ensures
        res@ == tag_ids_select_text(texts(tags@)),
{
    let mut res = String::new();
    res.append("SELECT (id) FROM tags WHERE ");
    res.append(name_condition(tags).as_str());
    res.append(";");
    res
}

/// The query for the id of the image with digest `hash`.
pub open spec fn image_id_select_text(hash: Seq<char>) -> Seq<char> {
    "SELECT (id) FROM images WHERE hash = '"@ + hash + "';"@
}

pub fn image_id_select_statement(hash: &str) -> (res: String)
    ensures
        res@ == image_id_select_text(hash@),
{
    let mut res = String::new();
    res.append("SELECT (id) FROM images WHERE hash = '");
    res.append(hash);
    res.append("';");
    res
}

/// `(image, tag)` for one link between an image and a tag.
pub open spec fn link_values_text(image_id: u32, tag_id: u32) -> Seq<char> {
    "("@ + decimal(image_id as nat) + ", "@ + decimal(tag_id as nat) + ")"@
}

/// The statement that links the image `image_id` to each of the tags
/// `tag_ids`.
pub open spec fn links_insert_text(image_id: u32, tag_ids: Seq<u32>) -> Seq<char> {
    "INSERT INTO images_to_tags (image_id, tag_id) VALUES "@ + join(
        tag_ids.map_values(|t: u32| link_values_text(image_id, t)),
        ", "@,
    ) + ";"@
}

pub fn links_insert_statement(image_id: u32, tag_ids: &Vec<u32>) -> (res: String)
    ensures
        res@ == links_insert_text(image_id, tag_ids@),
{
    let mut values: Vec<String> = Vec::new();
    let mut i: usize = 0;
    while i < tag_ids.len()
        invariant
            i <= tag_ids.len(),
            texts(values@) =~= tag_ids@.map_values(|t: u32| link_values_text(image_id, t)).take(
                i as int,
            ),
        decreases tag_ids.len() - i,
    {
        let mut s = String::new();
        s.append("(");
        push_decimal(&mut s, image_id);
        s.append(", ");
        push_decimal(&mut s, tag_ids[i]);
        s.append(")");
        let ghost prev = values@;
        values.push(s);
        assert(texts(values@) =~= texts(prev).push(link_values_text(image_id, tag_ids@[i as int])));
        i = i + 1;
    }
    assert(texts(values@) =~= tag_ids@.map_values(|t: u32| link_values_text(image_id, t)));
    let mut res = String::new();
    res.append("INSERT INTO images_to_tags (image_id, tag_id) VALUES ");
    res.append(join_strings(&values, ", ").as_str());
    res.append(";");
    res
}

// ---------------------------------------------------------------------------
// Deleting and finding images
// ---------------------------------------------------------------------------

/// The statement that deletes the images with the digests `hashes`.
pub open spec fn delete_images_text(hashes: Seq<Seq<char>>) -> Seq<char> {
    "DELETE FROM images WHERE "@ + hash_condition_text(hashes) + ";"@
}

pub fn delete_images_statement(hashes: &Vec<String>) -> (res: String)
    ensures
        res@ == delete_images_text(texts(hashes@)),
{
    let mut res = String::new();
    res.append("DELETE FROM images WHERE ");
    res.append(hash_condition(hashes).as_str());
    res.append(";");
    res
}

/// The three tables joined: each image with each of its tags.
pub open spec fn joined_tables_text() -> Seq<char> {
    "images INNER JOIN images_to_tags ON images.id = images_to_tags.image_id INNER JOIN tags ON images_to_tags.tag_id = tags.id"@
}

/// The query for the digests of the images that have a tag meeting the
/// condition `condition`.
pub open spec fn matching_hashes_text(condition: Seq<char>) -> Seq<char> {
    "SELECT hash FROM "@ + joined_tables_text() + " WHERE "@ + condition + ";"@
}

pub fn matching_hashes_statement(condition: &str) -> (res: String)
    ensures
        res@ == matching_hashes_text(condition@),
{
    let mut res = String::new();
    res.append("SELECT hash FROM ");
    res.append(
        "images INNER JOIN images_to_tags ON images.id = images_to_tags.image_id INNER JOIN tags ON images_to_tags.tag_id = tags.id",
    );
    res.append(" WHERE ");
    res.append(condition);
    res.append(";");
    res
}

/// The query for the path, digest and tag names of the images with the
/// digests `hashes`, one row per tag.
pub open spec fn image_rows_text(hashes: Seq<Seq<char>>) -> Seq<char> {
    "SELECT fp, hash, name FROM "@ + joined_tables_text() + " WHERE "@ + hash_condition_text(hashes)
        + ";"@
}

pub fn image_rows_statement(hashes: &Vec<String>) -> (res: String)
    ensures
        res@ == image_rows_text(texts(hashes@)),
{
    let mut res = String::new();
    res.append("SELECT fp, hash, name FROM ");
    res.append(
        "images INNER JOIN images_to_tags ON images.id = images_to_tags.image_id INNER JOIN tags ON images_to_tags.tag_id = tags.id",
    );
    res.append(" WHERE ");
    res.append(hash_condition(hashes).as_str());
    res.append(";");
    res
}

// ---------------------------------------------------------------------------
// Rows read back, gathered into images
// ---------------------------------------------------------------------------

/// The rows of one image: its digest, its path, and the names of its tags,
/// each once.
pub struct ImageGroup {
    pub hash: String,
    pub fp: String,
    pub tags: Vec<String>,
}

/// Every row carries a digest, a path and a tag name.
pub open spec fn rows_complete(rows: Seq<ImageRow>) -> bool {
    forall|i: int|
        0 <= i < rows.len() ==> {
            &&& (#[trigger] rows[i]).hash is Some
            &&& rows[i].fp is Some
            &&& rows[i].name is Some
        }
}

pub open spec fn row_hash(r: ImageRow) -> Seq<char> {
    r.hash.unwrap()@
}

pub open spec fn row_fp(r: ImageRow) -> Seq<char> {
    r.fp.unwrap()@
}

pub open spec fn row_name(r: ImageRow) -> Seq<char> {
    r.name.unwrap()@
}

pub open spec fn row_hashes(rows: Seq<ImageRow>) -> Seq<Seq<char>> {
    rows.map_values(|r: ImageRow| row_hash(r))
}

/// The texts of `s`, each once, in the order of their first occurrence.
pub open spec fn distinct_in_order(s: Seq<Seq<char>>) -> Seq<Seq<char>>
    decreases s.len(),
{
    if s.len() == 0 {
        seq![]
    } else {
        let d = distinct_in_order(s.drop_last());
        if d.contains(s.last()) {
            d
        } else {
            d.push(s.last())
        }
    }
}

/// Row `i` is the first of `rows` with the digest `h`.
pub open spec fn is_first_row(rows: Seq<ImageRow>, i: int, h: Seq<char>) -> bool {
    &&& 0 <= i < rows.len()
    &&& row_hash(rows[i]) == h
    &&& forall|k: int| 0 <= k < i ==> row_hash(#[trigger] rows[k]) != h
}

/// The tag names of the rows with the digest `h`.
pub open spec fn names_for(rows: Seq<ImageRow>, h: Seq<char>) -> Set<Seq<char>> {
    Set::new(
        |n: Seq<char>|
            exists|i: int| 0 <= i < rows.len() && row_hash(#[trigger] rows[i]) == h && row_name(rows[i]) == n,
    )
}

pub open spec fn group_hashes(groups: Seq<ImageGroup>) -> Seq<Seq<char>> {
    groups.map_values(|g: ImageGroup| g.hash@)
}

/// `groups` gathers `rows` by digest: one group per digest, in the order in
/// which the digests first occur; the path of a group is that of the first
/// row with its digest, and its tags are the names of all rows with it.
pub open spec fn groups_rows(rows: Seq<ImageRow>, groups: Seq<ImageGroup>) -> bool {
    &&& group_hashes(groups) == distinct_in_order(row_hashes(rows))
    &&& group_paths_first(rows, groups)
    &&& group_tags_all(rows, groups)
}

/// The path of each group is that of the first row with its digest.
pub open spec fn group_paths_first(rows: Seq<ImageRow>, groups: Seq<ImageGroup>) -> bool {
    forall|j: int, i: int|
        #![trigger is_first_row(rows, i, groups[j].hash@)]
        0 <= j < groups.len() && is_first_row(rows, i, groups[j].hash@) ==> row_fp(rows[i])
            == groups[j].fp@
}

/// The tags of each group are the names of all rows with its digest, each
/// once.
pub open spec fn group_tags_all(rows: Seq<ImageRow>, groups: Seq<ImageGroup>) -> bool {
    forall|j: int|
        0 <= j < groups.len() ==> {
            &&& texts((#[trigger] groups[j]).tags@).no_duplicates()
            &&& texts(groups[j].tags@).to_set() == names_for(rows, groups[j].hash@)
        }
}

proof fn lemma_distinct_in_order(s: Seq<Seq<char>>)
    ensures
        distinct_in_order(s).no_duplicates(),
        forall|x: Seq<char>| distinct_in_order(s).contains(x) <==> s.contains(x),
    decreases s.len(),
{
    broadcast use vstd::seq_lib::group_seq_properties;

    if s.len() > 0 {
        lemma_distinct_in_order(s.drop_last());
        assert forall|x: Seq<char>| s.contains(x) implies s.drop_last().contains(x) || x == s.last() by {
            let k = choose|k: int| 0 <= k < s.len() && s[k] == x;
            if k < s.len() - 1 {
                assert(s.drop_last()[k] == x);
            }
        }
        assert forall|x: Seq<char>| s.drop_last().contains(x) implies s.contains(x) by {
            let k = choose|k: int| 0 <= k < s.drop_last().len() && s.drop_last()[k] == x;
            assert(s[k] == x);
        }
        assert(s[s.len() - 1] == s.last());
    }
}

/// The position of the group with digest `h`, if there is one.
fn find_group(groups: &Vec<ImageGroup>, h: &str) -> (res: Option<usize>)
    ensures
        match res {
            Some(j) => j < groups.len() && groups@[j as int].hash@ == h@,
            None => !group_hashes(groups@).contains(h@),
        },
{
    let mut j: usize = 0;
    while j < groups.len()
        invariant
            j <= groups.len(),
            forall|k: int| 0 <= k < j ==> groups@[k].hash@ != h@,
        decreases groups.len() - j,
    {
        if str_equal(groups[j].hash.as_str(), h) {
            return Some(j);
        }
        j = j + 1;
    }
    assert(!group_hashes(groups@).contains(h@)) by {
        if group_hashes(groups@).contains(h@) {
            let k = choose|k: int| 0 <= k < group_hashes(groups@).len() && group_hashes(groups@)[k] == h@;
            assert(groups@[k].hash@ == h@);
        }
    }
    None
}

/// What one more row changes in the facts that `groups_rows` speaks of.
proof fn lemma_one_more_row(rows: Seq<ImageRow>, i: int)
    requires
        0 <= i < rows.len(),
    ensures
        row_hashes(rows.take(i + 1)) == row_hashes(rows.take(i)).push(row_hash(rows[i])),
        forall|k: int, h: Seq<char>|
            0 <= k < i ==> (#[trigger] is_first_row(rows.take(i + 1), k, h) <==> is_first_row(
                rows.take(i),
                k,
                h,
            )),
        forall|h: Seq<char>, n: Seq<char>|
            #[trigger] names_for(rows.take(i + 1), h).contains(n) <==> (names_for(
                rows.take(i),
                h,
            ).contains(n) || (h == row_hash(rows[i]) && n == row_name(rows[i]))),
{
    let p = rows.take(i);
    let q = rows.take(i + 1);
    assert(row_hashes(q) =~= row_hashes(p).push(row_hash(rows[i])));
    assert forall|h: Seq<char>, n: Seq<char>|
        #[trigger] names_for(q, h).contains(n) <==> (names_for(p, h).contains(n) || (h
            == row_hash(rows[i]) && n == row_name(rows[i]))) by {
        if names_for(q, h).contains(n) {
            let k = choose|k: int| 0 <= k < q.len() && row_hash(#[trigger] q[k]) == h && row_name(q[k]) == n;
            if k < i {
                assert(p[k] == q[k]);
            }
        }
        if names_for(p, h).contains(n) {
            let k = choose|k: int| 0 <= k < p.len() && row_hash(#[trigger] p[k]) == h && row_name(p[k]) == n;
            assert(q[k] == p[k]);
        }
        if h == row_hash(rows[i]) && n == row_name(rows[i]) {
            assert(q[i] == rows[i]);
        }
    }
    assert forall|k: int, h: Seq<char>| 0 <= k < i implies (#[trigger] is_first_row(q, k, h) <==> is_first_row(p, k, h)) by {
        assert(q[k] == p[k]);
        assert forall|m: int| 0 <= m < k implies q[m] == p[m] by {}
    }
}

/// Gathers rows by digest into one group per image (see `groups_rows`).
pub fn group_image_rows(rows: &Vec<ImageRow>) -> (res: Vec<ImageGroup>)
    requires
        rows_complete(rows@),
    ensures
        groups_rows(rows@, res@),
{
    let mut groups: Vec<ImageGroup> = Vec::new();
    let mut i: usize = 0;
    assert(row_hashes(rows@.take(0)) =~= Seq::<Seq<char>>::empty());
    assert(group_hashes(groups@) =~= Seq::<Seq<char>>::empty());
    while i < rows.len()
        invariant
            i <= rows.len(),
            rows_complete(rows@),
            groups_rows(rows@.take(i as int), groups@),
        decreases rows.len() - i,
    {
        let ghost p = rows@.take(i as int);
        let ghost q = rows@.take(i + 1);
        let ghost old_groups = groups@;
        proof {
            lemma_one_more_row(rows@, i as int);
            lemma_distinct_in_order(row_hashes(p));
            lemma_distinct_in_order(row_hashes(q));
        }
        assert(rows@[i as int].hash is Some);
        let row = &rows[i];
        let (h, fp, name) = match (&row.hash, &row.fp, &row.name) {
            (Some(h), Some(fp), Some(name)) => (h, fp, name),
            _ => {
                assert(false);
                return groups;
            },
        };
        match find_group(&groups, h.as_str()) {
            Some(j) => {
                assert(group_hashes(old_groups)[j as int] == h@);
                assert(distinct_in_order(row_hashes(p)).contains(h@));
                assert(row_hashes(q).drop_last() =~= row_hashes(p));
                assert(row_hashes(q).last() == h@);
                assert(distinct_in_order(row_hashes(q)) == distinct_in_order(row_hashes(p)));
                let mut g = ImageGroup { hash: String::new(), fp: String::new(), tags: Vec::new() };
                groups.set_and_swap(j, &mut g);
                let ghost before = g.tags@;
                if !contains_text(&g.tags, name.as_str()) {
                    g.tags.push(name.clone());
                    assert(texts(g.tags@) =~= texts(before).push(name@));
                    proof {
                        texts(before).lemma_push_to_set_commute(name@);
                    }
                } else {
                    assert(texts(g.tags@).to_set().contains(name@));
                }
                groups.set_and_swap(j, &mut g);
                assert(group_hashes(groups@) =~= group_hashes(old_groups));
                assert forall|k: int, m: int|
                    0 <= k < groups@.len() && #[trigger] is_first_row(q, m, groups@[k].hash@) implies row_fp(q[m]) == groups@[k].fp@ by {
                    if m < i {
                        assert(is_first_row(p, m, old_groups[k].hash@));
                        assert(q[m] == p[m]);
                    } else {
                        assert(groups@[k].hash@ == h@);
                        assert(row_hashes(p).contains(h@));
                        let w = choose|w: int| 0 <= w < row_hashes(p).len() && row_hashes(p)[w] == h@;
                        assert(row_hash(q[w]) == h@);
                    }
                }
                assert forall|k: int| 0 <= k < groups@.len() implies {
                    &&& texts((#[trigger] groups@[k]).tags@).no_duplicates()
                    &&& texts(groups@[k].tags@).to_set() == names_for(q, groups@[k].hash@)
                } by {
                    if k == j {
                        assert(texts(groups@[k].tags@).to_set() =~= names_for(q, groups@[k].hash@));
                    } else {
                        assert(group_hashes(old_groups)[k] != group_hashes(old_groups)[j as int]);
                        assert(texts(groups@[k].tags@).to_set() =~= names_for(q, groups@[k].hash@));
                    }
                }
            },
            None => {
                assert(!distinct_in_order(row_hashes(p)).contains(h@));
                assert(!row_hashes(p).contains(h@));
                assert forall|k: int| 0 <= k < i implies row_hash(#[trigger] rows@[k]) != h@ by {
                    assert(row_hashes(p)[k] == row_hash(rows@[k]));
                }
                let mut tags: Vec<String> = Vec::new();
                tags.push(name.clone());
                assert(texts(tags@) =~= seq![name@]);
                groups.push(ImageGroup { hash: h.clone(), fp: fp.clone(), tags });
                assert(group_hashes(groups@) =~= group_hashes(old_groups).push(h@));
                assert(row_hashes(q).drop_last() =~= row_hashes(p));
                assert(row_hashes(q).last() == h@);
                assert(is_first_row(q, i as int, h@));
                assert forall|k: int, m: int|
                    0 <= k < groups@.len() && #[trigger] is_first_row(q, m, groups@[k].hash@) implies row_fp(q[m]) == groups@[k].fp@ by {
                    if k < old_groups.len() {
                        assert(group_hashes(old_groups)[k] == old_groups[k].hash@);
                        assert(old_groups[k].hash@ != h@) by {
                            assert(distinct_in_order(row_hashes(p)).contains(old_groups[k].hash@));
                        }
                        if m == i {
                            assert(row_hash(q[m]) == row_hash(rows@[i as int]));
                        }
                        assert(is_first_row(p, m, old_groups[k].hash@));
                        assert(q[m] == p[m]);
                    } else {
                        assert(groups@[k].hash@ == h@ && groups@[k].fp@ == fp@);
                        if m < i {
                            assert(is_first_row(p, m, h@));
                            assert(row_hash(rows@[m]) == h@);
                        }
                        assert(q[i as int] == rows@[i as int]);
                    }
                }
                assert forall|k: int| 0 <= k < groups@.len() implies {
                    &&& texts((#[trigger] groups@[k]).tags@).no_duplicates()
                    &&& texts(groups@[k].tags@).to_set() == names_for(q, groups@[k].hash@)
                } by {
                    if k < old_groups.len() {
                        assert(group_hashes(old_groups)[k] != h@);
                        assert(texts(groups@[k].tags@).to_set() =~= names_for(q, groups@[k].hash@));
                    } else {
                        assert forall|n: Seq<char>| names_for(p, h@).contains(n) implies false by {
                            let m = choose|m: int| 0 <= m < p.len() && row_hash(#[trigger] p[m]) == h@ && row_name(p[m]) == n;
                            assert(row_hash(rows@[m]) != h@);
                        }
                        assert(texts(groups@[k].tags@) == seq![name@]);
                        assert forall|n: Seq<char>| texts(groups@[k].tags@).to_set().contains(n) <==> n == name@ by {
                            if n == name@ {
                                assert(texts(groups@[k].tags@)[0] == n);
                            }
                        }
                        assert(texts(groups@[k].tags@).to_set() =~= names_for(q, groups@[k].hash@));
                    }
                }
            },
        }
        i = i + 1;
    }
    assert(rows@.take(rows.len() as int) =~= rows@);
    groups
}

// ---------------------------------------------------------------------------
// What the conditions select
// ---------------------------------------------------------------------------

/// A condition on a row of the joined tables, as SQL reads it.
pub enum RowCondition {
    /// The row's image digest is the text.
    HashIs(Seq<char>),
    /// The row's tag name is the text.
    NameIs(Seq<char>),
    /// Either condition holds.
    Either(Box<RowCondition>, Box<RowCondition>),
}

/// Whether the condition holds of a row whose digest is `hash` and whose
/// tag name is `name`.
pub open spec fn condition_holds(c: RowCondition, hash: Seq<char>, name: Seq<char>) -> bool
    decreases c,
{
    match c {
        RowCondition::HashIs(h) => hash == h,
        RowCondition::NameIs(n) => name == n,
        RowCondition::Either(a, b) => condition_holds(*a, hash, name) || condition_holds(
            *b,
            hash,
            name,
        ),
    }
}

/// How SQL writes the condition: `hash = '...'`, `name = '...'`, and
/// `a OR b`.
pub open spec fn condition_sql(c: RowCondition) -> Seq<char>
    decreases c,
{
    match c {
        RowCondition::HashIs(h) => "hash = '"@ + h + "'"@,
        RowCondition::NameIs(n) => "name = '"@ + n + "'"@,
        RowCondition::Either(a, b) => condition_sql(*a) + " OR "@ + condition_sql(*b),
    }
}

/// The condition that the digest is one of `hs` (for a non-empty `hs`).
pub open spec fn any_hash(hs: Seq<Seq<char>>) -> RowCondition
    decreases hs.len(),
{
    if hs.len() <= 1 {
        RowCondition::HashIs(hs[0])
    } else {
        RowCondition::Either(Box::new(any_hash(hs.drop_last())), Box::new(RowCondition::HashIs(hs.last())))
    }
}

/// The condition that the tag name is one of `ns` (for a non-empty `ns`).
pub open spec fn any_name(ns: Seq<Seq<char>>) -> RowCondition
    decreases ns.len(),
{
    if ns.len() <= 1 {
        RowCondition::NameIs(ns[0])
    } else {
        RowCondition::Either(Box::new(any_name(ns.drop_last())), Box::new(RowCondition::NameIs(ns.last())))
    }
}

proof fn lemma_any_hash(hs: Seq<Seq<char>>, hash: Seq<char>, name: Seq<char>)
    requires
        hs.len() > 0,
    ensures
        condition_holds(any_hash(hs), hash, name) <==> hs.contains(hash),
        condition_sql(any_hash(hs)) == hash_condition_text(hs),
    decreases hs.len(),
{
    let w = wrap_all(hs, "hash = '"@, "'"@);
    if hs.len() == 1 {
        assert(w.len() == 1);
        assert(w[0] == "hash = '"@ + hs[0] + "'"@);
        assert(condition_holds(any_hash(hs), hash, name) == (hs[0] == hash));
        assert(condition_sql(any_hash(hs)) == "hash = '"@ + hs[0] + "'"@);
        assert(hash_condition_text(hs) == w[0]);
        assert(hs.contains(hash) <==> hs[0] == hash) by {
            if hs.contains(hash) {
                let k = choose|k: int| 0 <= k < hs.len() && hs[k] == hash;
                assert(k == 0);
            }
        }
    } else {
        lemma_any_hash(hs.drop_last(), hash, name);
        assert(any_hash(hs) == RowCondition::Either(Box::new(any_hash(hs.drop_last())), Box::new(RowCondition::HashIs(hs.last()))));
        assert(condition_holds(RowCondition::HashIs(hs.last()), hash, name) == (hash == hs.last()));
        assert(condition_sql(RowCondition::HashIs(hs.last())) == "hash = '"@ + hs.last() + "'"@);
        assert(condition_holds(any_hash(hs), hash, name) == (condition_holds(any_hash(hs.drop_last()), hash, name) || hs.last() == hash));
        assert(condition_sql(any_hash(hs)) == condition_sql(any_hash(hs.drop_last())) + " OR "@ + "hash = '"@ + hs.last() + "'"@);
        assert(hash_condition_text(hs) == join(w.drop_last(), " OR "@) + " OR "@ + w.last());
        assert(w.drop_last() =~= wrap_all(hs.drop_last(), "hash = '"@, "'"@));
        assert(w.last() == "hash = '"@ + hs.last() + "'"@);
        assert(hs.contains(hash) <==> (hs.drop_last().contains(hash) || hs.last() == hash)) by {
            if hs.contains(hash) {
                let k = choose|k: int| 0 <= k < hs.len() && hs[k] == hash;
                if k < hs.len() - 1 {
                    assert(hs.drop_last()[k] == hash);
                }
            }
            if hs.drop_last().contains(hash) {
                let k = choose|k: int| 0 <= k < hs.drop_last().len() && hs.drop_last()[k] == hash;
                assert(hs[k] == hash);
            }
            if hs.last() == hash {
                assert(hs[hs.len() - 1] == hash);
            }
        }
    }
}

proof fn lemma_any_name(ns: Seq<Seq<char>>, hash: Seq<char>, name: Seq<char>)
    requires
        ns.len() > 0,
    ensures
        condition_holds(any_name(ns), hash, name) <==> ns.contains(name),
        condition_sql(any_name(ns)) == name_condition_text(ns),
    decreases ns.len(),
{
    let w = wrap_all(ns, "name = '"@, "'"@);
    if ns.len() == 1 {
        assert(w.len() == 1);
        assert(w[0] == "name = '"@ + ns[0] + "'"@);
        assert(condition_holds(any_name(ns), hash, name) == (ns[0] == name));
        assert(condition_sql(any_name(ns)) == "name = '"@ + ns[0] + "'"@);
        assert(name_condition_text(ns) == w[0]);
        assert(ns.contains(name) <==> ns[0] == name) by {
            if ns.contains(name) {
                let k = choose|k: int| 0 <= k < ns.len() && ns[k] == name;
                assert(k == 0);
            }
        }
    } else {
        lemma_any_name(ns.drop_last(), hash, name);
        assert(any_name(ns) == RowCondition::Either(Box::new(any_name(ns.drop_last())), Box::new(RowCondition::NameIs(ns.last()))));
        assert(condition_holds(RowCondition::NameIs(ns.last()), hash, name) == (name == ns.last()));
        assert(condition_sql(RowCondition::NameIs(ns.last())) == "name = '"@ + ns.last() + "'"@);
        assert(condition_holds(any_name(ns), hash, name) == (condition_holds(any_name(ns.drop_last()), hash, name) || ns.last() == name));
        assert(condition_sql(any_name(ns)) == condition_sql(any_name(ns.drop_last())) + " OR "@ + "name = '"@ + ns.last() + "'"@);
        assert(name_condition_text(ns) == join(w.drop_last(), " OR "@) + " OR "@ + w.last());
        assert(w.drop_last() =~= wrap_all(ns.drop_last(), "name = '"@, "'"@));
        assert(w.last() == "name = '"@ + ns.last() + "'"@);
        assert(ns.contains(name) <==> (ns.drop_last().contains(name) || ns.last() == name)) by {
            if ns.contains(name) {
                let k = choose|k: int| 0 <= k < ns.len() && ns[k] == name;
                if k < ns.len() - 1 {
                    assert(ns.drop_last()[k] == name);
                }
            }
            if ns.drop_last().contains(name) {
                let k = choose|k: int| 0 <= k < ns.drop_last().len() && ns.drop_last()[k] == name;
                assert(ns[k] == name);
            }
            if ns.last() == name {
                assert(ns[ns.len() - 1] == name);
            }
        }
    }
}

/// Deleting images by digest deletes exactly the images whose digest is
/// listed: the statement's condition is one that holds of a row exactly when
/// the row's digest is one of `hs`.
pub proof fn lemma_delete_selects_listed(hs: Seq<Seq<char>>)
    requires
        hs.len() > 0,
    ensures
        delete_images_text(hs) == "DELETE FROM images WHERE "@ + condition_sql(any_hash(hs)) + ";"@,
        forall|hash: Seq<char>, name: Seq<char>|
            condition_holds(any_hash(hs), hash, name) <==> hs.contains(hash),
{
    lemma_any_hash(hs, Seq::empty(), Seq::empty());
    assert forall|hash: Seq<char>, name: Seq<char>|
        condition_holds(any_hash(hs), hash, name) <==> hs.contains(hash) by {
        lemma_any_hash(hs, hash, name);
    }
}

/// Fetching the rows of matched images fetches the rows of exactly the
/// listed digests: the query's condition holds of a row exactly when the
/// row's digest is one of `hs`.
pub proof fn lemma_image_rows_select_listed(hs: Seq<Seq<char>>)
    requires
        hs.len() > 0,
    ensures
        image_rows_text(hs) == "SELECT fp, hash, name FROM "@ + joined_tables_text() + " WHERE "@
            + condition_sql(any_hash(hs)) + ";"@,
        forall|hash: Seq<char>, name: Seq<char>|
            condition_holds(any_hash(hs), hash, name) <==> hs.contains(hash),
{
    lemma_any_hash(hs, Seq::empty(), Seq::empty());
    assert forall|hash: Seq<char>, name: Seq<char>|
        condition_holds(any_hash(hs), hash, name) <==> hs.contains(hash) by {
        lemma_any_hash(hs, hash, name);
    }
}

/// Looking tag ids up by name selects exactly the listed names: the query's
/// condition holds of a tag exactly when its name is one of `ns`.
pub proof fn lemma_tag_ids_select_listed(ns: Seq<Seq<char>>)
    requires
        ns.len() > 0,
    ensures
        tag_ids_select_text(ns) == "SELECT (id) FROM tags WHERE "@ + condition_sql(any_name(ns))
            + ";"@,
        forall|hash: Seq<char>, name: Seq<char>|
            condition_holds(any_name(ns), hash, name) <==> ns.contains(name),
{
    lemma_any_name(ns, Seq::empty(), Seq::empty());
    assert forall|hash: Seq<char>, name: Seq<char>|
        condition_holds(any_name(ns), hash, name) <==> ns.contains(name) by {
        lemma_any_name(ns, hash, name);
    }
}

} // verus!
