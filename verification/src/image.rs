//! Image records: a file, the digest of its contents, and a set of tags.

use vstd::prelude::*;
use vstd::std_specs::cmp::PartialEqSpec;

use crate::digest::{base64_encode, base64_text, is_base64_char, sha256, sha256_digest};
use crate::text::{str_equal, texts};

verus! {

/// The reason an image record could not be made.
#[derive(Debug, PartialEq, Eq, Structural)]
pub enum ImageError {
    /// The image file could not be read.
    ReadFail,
}

/// An image: where its file is, the digest of the file's contents, and the
/// tags given to it (no tag twice).
#[derive(Debug)]
pub struct Image {
    hash: String,
    filepath: String,
    tags: Vec<String>,
}

/// The mathematical value of an image.
pub struct ImageView {
    pub hash: Seq<char>,
    pub filepath: Seq<char>,
    pub tags: Set<Seq<char>>,
}

/// The digest text that identifies a file's contents: SHA-256, in Base64.
pub open spec fn content_hash(data: Seq<u8>) -> Seq<char> {
    base64_text(sha256_digest(data))
}

/// The shape of a digest text: 43 characters of the Base64 alphabet and
/// one `=` of padding (a 32-byte digest leaves two bytes over).
pub open spec fn digest_text_shape(t: Seq<char>) -> bool {
    &&& t.len() == 44
    &&& forall|i: int| 0 <= i < 43 ==> is_base64_char(#[trigger] t[i])
    &&& t[43] == '='
}

impl View for Image {
    type V = ImageView;

    closed spec fn view(&self) -> ImageView {
        ImageView { hash: self.hash@, filepath: self.filepath@, tags: texts(self.tags@).to_set() }
    }
}

/// Whether `t` is one of the strings of `v`.
pub fn contains_text(v: &Vec<String>, t: &str) -> (res: bool)
    ensures
        res == texts(v@).contains(t@),
{
    let mut i: usize = 0;
    while i < v.len()
        invariant
            i <= v.len(),
            forall|k: int| 0 <= k < i ==> v@[k]@ != t@,
        decreases v.len() - i,
    {
        if str_equal(v[i].as_str(), t) {
            assert(texts(v@)[i as int] == t@);
            return true;
        }
        i = i + 1;
    }
    assert(!texts(v@).contains(t@)) by {
        if texts(v@).contains(t@) {
            let k = choose|k: int| 0 <= k < texts(v@).len() && texts(v@)[k] == t@;
            assert(v@[k]@ == t@);
        }
    }
    false
}

/// Whether every string of `a` is one of the strings of `b`.
fn texts_within(a: &Vec<String>, b: &Vec<String>) -> (res: bool)
    ensures
        res == texts(a@).to_set().subset_of(texts(b@).to_set()),
{
    let mut i: usize = 0;
    while i < a.len()
        invariant
            i <= a.len(),
            forall|k: int| 0 <= k < i ==> texts(b@).contains(#[trigger] texts(a@)[k]),
        decreases a.len() - i,
    {
        if !contains_text(b, a[i].as_str()) {
            assert(texts(a@).to_set().contains(texts(a@)[i as int]));
            return false;
        }
        i = i + 1;
    }
    assert forall|x: Seq<char>| texts(a@).to_set().contains(x) implies texts(b@).to_set().contains(x) by {
        let k = choose|k: int| 0 <= k < texts(a@).len() && texts(a@)[k] == x;
        assert(texts(b@).contains(texts(a@)[k]));
    }
    true
}

/// Two images are equal when their contents have the same digest and they
/// carry the same tags; where the files are does not matter.
impl PartialEq for Image {
    fn eq(&self, other: &Self) -> (res: bool) {
        let same_hash = str_equal(self.hash.as_str(), other.hash.as_str());
        let within = texts_within(&self.tags, &other.tags);
        let covers = texts_within(&other.tags, &self.tags);
        proof {
            if within && covers {
                assert(self@.tags =~= other@.tags);
            }
        }
        same_hash && within && covers
    }
}

impl vstd::std_specs::cmp::PartialEqSpecImpl for Image {
    open spec fn obeys_eq_spec() -> bool {
        true
    }

    open spec fn eq_spec(&self, other: &Image) -> bool {
        self@.hash == other@.hash && self@.tags == other@.tags
    }
}

impl Image {
    #[verifier::type_invariant]
    closed spec fn tags_distinct(self) -> bool {
        texts(self.tags@).no_duplicates()
    }

    /// The digest text of a file's contents (SHA-256, in Base64).
    pub fn hash_image(data: &[u8]) -> (res: String)
        ensures
            res@ == content_hash(data@),
            digest_text_shape(res@),
    {
        let digest = sha256(data);
        let res = base64_encode(digest.as_slice());
        assert(res@[43] == '=');
        res
    }

    /// An image without tags, for a file whose contents are `contents`, or
    /// `ReadFail` where the file could not be read (`None`).
    pub fn new(filepath: String, contents: Option<&[u8]>) -> (res: Result<Image, ImageError>)
        ensures
            match contents {
                Some(data) => res matches Ok(im) && im@ == (ImageView {
                    hash: content_hash(data@),
                    filepath: filepath@,
                    tags: Set::empty(),
                }) && digest_text_shape(im@.hash),
                None => res == Err::<Image, ImageError>(ImageError::ReadFail),
            },
    {
        match contents {
            Some(data) => {
                let hash = Image::hash_image(data);
                let tags: Vec<String> = Vec::new();
                assert(texts(tags@) =~= Seq::<Seq<char>>::empty());
                let im = Image { hash, filepath, tags };
                assert(im@.tags =~= Set::<Seq<char>>::empty());
                Ok(im)
            },
            None => Err(ImageError::ReadFail),
        }
    }

    /// An image with the tags `tags` (a tag given twice counts once), for a
    /// file whose contents are `contents`, or `ReadFail` where the file could
    /// not be read (`None`).
    pub fn new_with_tags(filepath: String, contents: Option<&[u8]>, tags: Vec<String>) -> (res:
        Result<Image, ImageError>)
        ensures
            match contents {
                Some(data) => res matches Ok(im) && im@ == (ImageView {
                    hash: content_hash(data@),
                    filepath: filepath@,
                    tags: texts(tags@).to_set(),
                }) && digest_text_shape(im@.hash),
                None => res == Err::<Image, ImageError>(ImageError::ReadFail),
            },
    {
        match contents {
            Some(data) => {
                let hash = Image::hash_image(data);
                let mut distinct: Vec<String> = Vec::new();
                let mut i: usize = 0;
                while i < tags.len()
                    invariant
                        i <= tags.len(),
                        texts(distinct@).no_duplicates(),
                        texts(distinct@).to_set() =~= texts(tags@.take(i as int)).to_set(),
                    decreases tags.len() - i,
                {
                    let ghost before = distinct@;
                    assert(texts(tags@.take(i + 1)) =~= texts(tags@.take(i as int)).push(
                        tags@[i as int]@,
                    ));
                    proof {
                        texts(tags@.take(i as int)).lemma_push_to_set_commute(tags@[i as int]@);
                    }
                    if !contains_text(&distinct, tags[i].as_str()) {
                        distinct.push(tags[i].clone());
                        assert(texts(distinct@) =~= texts(before).push(tags@[i as int]@));
                        proof {
                            texts(before).lemma_push_to_set_commute(tags@[i as int]@);
                        }
                    }
                    i = i + 1;
                }
                assert(tags@.take(tags.len() as int) =~= tags@);
                Ok(Image { hash, filepath, tags: distinct })
            },
            None => Err(ImageError::ReadFail),
        }
    }

    /// The path of the image file.
    pub fn get_fp(&self) -> (res: &str)
        ensures
            res@ == self@.filepath,
    {
        self.filepath.as_str()
    }

    /// The digest text of the image file's contents.
    pub fn get_hash(&self) -> (res: &str)
        ensures
            res@ == self@.hash,
    {
        self.hash.as_str()
    }

    /// Gives the image the tag `t`; an image that has it already is left
    /// unchanged.
    pub fn add_tag(&mut self, t: String)
        ensures
            final(self)@ == (ImageView { tags: old(self)@.tags.insert(t@), ..old(self)@ }),
    {
        proof {
            use_type_invariant(&*self);
        }
        if !contains_text(&self.tags, t.as_str()) {
            let mut tags: Vec<String> = Vec::new();
            std::mem::swap(&mut tags, &mut self.tags);
            let ghost before = tags@;
            let ghost tv = t@;
            tags.push(t);
            assert(texts(tags@) =~= texts(before).push(tv));
            proof {
                texts(before).lemma_push_to_set_commute(tv);
            }
            self.tags = tags;
        } else {
            assert(texts(self.tags@).to_set().contains(t@));
            assert(old(self)@.tags.insert(t@) =~= old(self)@.tags);
        }
    }

    /// Takes the tag `t` from the image; an image without it is left
    /// unchanged.
    pub fn remove_tag(&mut self, t: &str)
        ensures
            final(self)@ == (ImageView { tags: old(self)@.tags.remove(t@), ..old(self)@ }),
    {
        proof {
            use_type_invariant(&*self);
        }
        let mut kept: Vec<String> = Vec::new();
        let mut i: usize = 0;
        while i < self.tags.len()
            invariant
                i <= self.tags.len(),
                texts(self.tags@).no_duplicates(),
                texts(kept@).no_duplicates(),
                texts(kept@).to_set() =~= texts(self.tags@.take(i as int)).to_set().remove(t@),
            decreases self.tags.len() - i,
        {
            let ghost before = kept@;
            assert(texts(self.tags@.take(i + 1)) =~= texts(self.tags@.take(i as int)).push(
                self.tags@[i as int]@,
            ));
            proof {
                texts(self.tags@.take(i as int)).lemma_push_to_set_commute(self.tags@[i as int]@);
            }
            if !str_equal(self.tags[i].as_str(), t) {
                proof {
                    assert(!texts(self.tags@.take(i as int)).contains(self.tags@[i as int]@)) by {
                        if texts(self.tags@.take(i as int)).contains(self.tags@[i as int]@) {
                            let k = choose|k: int| 0 <= k < i && texts(self.tags@.take(i as int))[k] == self.tags@[i as int]@;
                            assert(texts(self.tags@)[k] == texts(self.tags@)[i as int]);
                        }
                    }
                }
                assert(!texts(kept@).contains(self.tags@[i as int]@)) by {
                    if texts(kept@).contains(self.tags@[i as int]@) {
                        assert(texts(kept@).to_set().contains(self.tags@[i as int]@));
                    }
                }
                kept.push(self.tags[i].clone());
                assert(texts(kept@) =~= texts(before).push(self.tags@[i as int]@));
                proof {
                    texts(before).lemma_push_to_set_commute(self.tags@[i as int]@);
                }
            }
            i = i + 1;
        }
        assert(self.tags@.take(self.tags.len() as int) =~= self.tags@);
        self.tags = kept;
    }

    /// The tags of the image, each once.
    pub fn get_tags(&self) -> (res: &Vec<String>)
        ensures
            texts(res@).to_set() == self@.tags,
            texts(res@).no_duplicates(),
    {
        proof {
            use_type_invariant(self);
        }
        &self.tags
    }
}

/// The digests of the files read before the first one that could not be
/// read (`None`), in order.
pub open spec fn leading_hashes_of(contents: Seq<Option<Vec<u8>>>) -> Seq<Seq<char>>
    decreases contents.len(),
{
    if contents.len() == 0 {
        seq![]
    } else {
        match contents[0] {
            Some(data) => seq![content_hash(data@)] + leading_hashes_of(contents.drop_first()),
            None => seq![],
        }
    }
}

/// The digests of the files whose contents are `contents`, up to the first
/// file that could not be read (`None`).
pub fn leading_hashes(contents: &Vec<Option<Vec<u8>>>) -> (res: Vec<String>)
    ensures
        texts(res@) == leading_hashes_of(contents@),
{
    let mut res: Vec<String> = Vec::new();
    let mut i: usize = 0;
    assert(contents@.skip(0) =~= contents@);
    assert(texts(res@) + leading_hashes_of(contents@) =~= leading_hashes_of(contents@));
    while i < contents.len()
        invariant
            i <= contents.len(),
            texts(res@) + leading_hashes_of(contents@.skip(i as int)) == leading_hashes_of(contents@),
        decreases contents.len() - i,
    {
        assert(contents@.skip(i as int).drop_first() =~= contents@.skip(i + 1));
        assert(contents@.skip(i as int)[0] == contents@[i as int]);
        match &contents[i] {
            Some(data) => {
                let ghost before = res@;
                res.push(Image::hash_image(data.as_slice()));
                assert(texts(res@) =~= texts(before).push(content_hash(data@)));
                assert(texts(res@) + leading_hashes_of(contents@.skip(i + 1)) =~= texts(before)
                    + leading_hashes_of(contents@.skip(i as int)));
            },
            None => {
                assert(texts(res@) + leading_hashes_of(contents@.skip(i as int)) =~= texts(res@));
                return res;
            },
        }
        i = i + 1;
    }
    assert(contents@.skip(i as int) =~= Seq::<Option<Vec<u8>>>::empty());
    assert(texts(res@) + leading_hashes_of(contents@.skip(i as int)) =~= texts(res@));
    res
}

// ---------------------------------------------------------------------------
// Laws
// ---------------------------------------------------------------------------

/// Taking away a tag that was just given to an image without it gives back
/// the image's tags.
pub proof fn lemma_remove_undoes_add(tags: Set<Seq<char>>, t: Seq<char>)
    requires
        !tags.contains(t),
    ensures
        tags.insert(t).remove(t) == tags,
{
    assert(tags.insert(t).remove(t) =~= tags);
}

/// Giving a tag twice is giving it once.
pub proof fn lemma_add_tag_idempotent(tags: Set<Seq<char>>, t: Seq<char>)
    ensures
        tags.insert(t).insert(t) == tags.insert(t),
{
    assert(tags.insert(t).insert(t) =~= tags.insert(t));
}

/// An image made without tags and then given the tag `t` equals the image
/// made with the tags `t` (given any number of times).
pub proof fn lemma_tag_after_or_at_creation(tags: Seq<Seq<char>>, t: Seq<char>)
    requires
        tags.len() > 0,
        forall|i: int| 0 <= i < tags.len() ==> tags[i] == t,
    ensures
        Set::<Seq<char>>::empty().insert(t) == tags.to_set(),
{
    assert(tags[0] == t);
    assert(Set::<Seq<char>>::empty().insert(t) =~= tags.to_set());
}

/// Image equality is an equivalence: it holds of an image and itself, in
/// both directions, and passes along a chain.
pub proof fn lemma_image_eq_equivalence(a: Image, b: Image, c: Image)
    ensures
        a.eq_spec(&a),
        a.eq_spec(&b) == b.eq_spec(&a),
        a.eq_spec(&b) && b.eq_spec(&c) ==> a.eq_spec(&c),
{
}

/// Looking images up by path keeps one digest per file, in order, up to the
/// first file that could not be read: the `i`-th digest is that of the
/// `i`-th file's contents, and the list stops only at an unreadable file or
/// at the end. In particular, where every file could be read there is a
/// digest for every file.
pub proof fn lemma_leading_hashes_meaning(contents: Seq<Option<Vec<u8>>>)
    ensures
        leading_hashes_of(contents).len() <= contents.len(),
        forall|i: int|
            0 <= i < leading_hashes_of(contents).len() ==> (#[trigger] contents[i]) is Some
                && leading_hashes_of(contents)[i] == content_hash(contents[i].unwrap()@),
        leading_hashes_of(contents).len() < contents.len() ==> contents[leading_hashes_of(
            contents,
        ).len() as int] is None,
        (forall|i: int| 0 <= i < contents.len() ==> (#[trigger] contents[i]) is Some)
            ==> leading_hashes_of(contents).len() == contents.len(),
    decreases contents.len(),
{
    if contents.len() > 0 {
        let rest = contents.drop_first();
        lemma_leading_hashes_meaning(rest);
        match contents[0] {
            Some(data) => {
                let r = leading_hashes_of(contents);
                assert(r == seq![content_hash(data@)] + leading_hashes_of(rest));
                assert forall|i: int| 0 <= i < r.len() implies (#[trigger] contents[i]) is Some
                    && r[i] == content_hash(contents[i].unwrap()@) by {
                    if i > 0 {
                        assert(contents[i] == rest[i - 1]);
                    }
                }
                if r.len() < contents.len() {
                    assert(contents[r.len() as int] == rest[r.len() - 1]);
                }
                if forall|i: int| 0 <= i < contents.len() ==> (#[trigger] contents[i]) is Some {
                    assert forall|i: int| 0 <= i < rest.len() implies (#[trigger] rest[i]) is Some by {
                        assert(rest[i] == contents[i + 1]);
                    }
                }
            },
            None => {},
        }
    }
}

} // verus!
