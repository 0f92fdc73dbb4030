//! An object-storage service: buckets of objects kept in key order, multipart
//! uploads, byte-range reads and per-bucket lifecycle rules.
use vstd::prelude::*;

use crate::model::{BucketLifecycleConfiguration, CompletedMultipartUpload, CompletedPart, Delete, LifecycleRule, Object};
use crate::output::{
    AbortMultipartUploadOutput, CompleteMultipartUploadOutput, CreateMultipartUploadOutput, UploadPartOutput,
    DeleteObjectOutput, DeleteObjectsOutput, GetBucketLifecycleConfigurationOutput, GetObjectOutput,
    HeadObjectOutput, ListObjectsV2Output, PutBucketLifecycleConfigurationOutput, PutObjectOutput,
};
use crate::range::{parse_range, range_bounds, RangeSpec};
use crate::text::{
    has_prefix, lemma_seq_lt_transitive, lemma_seq_lt_trichotomy, seq_lt, str_eq, str_has_prefix, str_lt,
};

verus! {

/// Why an object-storage request failed; each carries what it is about.
#[derive(Clone, Debug, PartialEq, Eq)]
pub enum S3Error {
    NoSuchBucket(String),
    NoSuchKey(String),
    NoSuchUpload(String),
    /// The object of a metadata request does not exist.
    NotFound(String),
    InvalidRange(String),
    UnsupportedRangeUnit(String),
    InvalidPartNumber(i32),
    /// Reading one part of an object is not supported.
    PartNumberUnsupported(i32),
    /// Every upload id offered was already in use.
    UploadIdsExhausted,
}

/// `(b1, k1)` sorts before `(b2, k2)`: by bucket, then by key.
pub open spec fn pair_lt(b1: Seq<char>, k1: Seq<char>, b2: Seq<char>, k2: Seq<char>) -> bool {
    seq_lt(b1, b2) || (b1 == b2 && seq_lt(k1, k2))
}

/// The abstract value of a stored object.
pub struct ObjectView {
    pub bucket: Seq<char>,
    pub key: Seq<char>,
    pub body: Seq<u8>,
    pub completed: bool,
    pub content_length: i64,
}

/// `x` sorts before `y`.
pub open spec fn obj_lt(x: ObjectView, y: ObjectView) -> bool {
    pair_lt(x.bucket, x.key, y.bucket, y.key)
}

/// The abstract value of an uploaded part.
pub struct PartView {
    pub part_number: i32,
    pub body: Seq<u8>,
    pub e_tag: Seq<char>,
}

/// The abstract value of a multipart upload in progress.
pub struct UploadView {
    pub bucket: Seq<char>,
    pub key: Seq<char>,
    pub id: Seq<char>,
    pub parts: Seq<PartView>,
}

/// The abstract state of the service.
pub struct S3View {
    pub buckets: Seq<Seq<char>>,
    pub objects: Seq<ObjectView>,
    pub uploads: Seq<UploadView>,
    pub lifecycle: Seq<(Seq<char>, Seq<LifecycleRule>)>,
}

impl S3View {
    /// Bucket names are unique, objects are in strictly increasing
    /// (bucket, key) order, and bucket names in the lifecycle table are unique.
    pub open spec fn wf(self) -> bool {
        &&& forall|i: int, j: int|
            0 <= i < self.buckets.len() && 0 <= j < self.buckets.len() && i != j ==> self.buckets[i]
                != self.buckets[j]
        &&& forall|i: int, j: int|
            0 <= i < j < self.objects.len() ==> obj_lt(#[trigger] self.objects[i], #[trigger] self.objects[j])
        &&& forall|i: int, j: int|
            0 <= i < self.lifecycle.len() && 0 <= j < self.lifecycle.len() && i != j
                ==> self.lifecycle[i].0 != self.lifecycle[j].0
        &&& uploads_unique(self.uploads)
    }

    /// Upload `i` is the one with id `id` for the object at `(b, k)`.
    pub open spec fn upload_at(self, i: int, b: Seq<char>, k: Seq<char>, id: Seq<char>) -> bool {
        0 <= i < self.uploads.len() && self.uploads[i].bucket == b && self.uploads[i].key == k
            && self.uploads[i].id == id
    }

    pub open spec fn has_upload_id(self, b: Seq<char>, k: Seq<char>, id: Seq<char>) -> bool {
        exists|i: int| self.upload_at(i, b, k, id)
    }

    /// `cands[j]` is the first of `cands` that no upload of `(b, k)` uses.
    pub open spec fn first_free(self, b: Seq<char>, k: Seq<char>, cands: Seq<Seq<char>>, j: int) -> bool {
        &&& 0 <= j < cands.len()
        &&& !self.has_upload_id(b, k, cands[j])
        &&& forall|l: int| 0 <= l < j ==> self.has_upload_id(b, k, cands[l])
    }

    /// Object `i` is the one at `(b, k)`.
    pub open spec fn object_at(self, i: int, b: Seq<char>, k: Seq<char>) -> bool {
        0 <= i < self.objects.len() && self.objects[i].bucket == b && self.objects[i].key == k
    }

    pub open spec fn has_object(self, b: Seq<char>, k: Seq<char>) -> bool {
        exists|i: int| self.object_at(i, b, k)
    }

    /// Some upload is in progress for the object at `(b, k)`.
    pub open spec fn has_upload(self, b: Seq<char>, k: Seq<char>) -> bool {
        exists|i: int| 0 <= i < self.uploads.len() && self.uploads[i].bucket == b && self.uploads[i].key == k
    }

    /// A complete object is stored at `(b, k)`.
    pub open spec fn readable(self, b: Seq<char>, k: Seq<char>) -> bool {
        self.has_object(b, k) && self.objects[self.index_of(b, k)].completed
    }

    /// The state with `o` stored at position `p`.
    pub open spec fn with_object_at(self, p: int, o: ObjectView) -> S3View {
        S3View { objects: self.objects.insert(p, o), ..self }
    }

    /// The state with part `p` added to upload `u`.
    pub open spec fn with_part(self, u: int, p: PartView) -> S3View {
        S3View {
            uploads: self.uploads.update(u, UploadView { parts: self.uploads[u].parts.push(p), ..self.uploads[u] }),
            ..self
        }
    }

    /// The index of the object at `(b, k)`, if there is one.
    pub open spec fn index_of(self, b: Seq<char>, k: Seq<char>) -> int {
        choose|i: int| self.object_at(i, b, k)
    }

    /// The state after deleting the object at `(b, k)`: an object that is not
    /// complete stays as it is; a complete one goes, unless an upload for it is
    /// in progress, in which case it becomes empty and incomplete.
    pub open spec fn delete_one(self, b: Seq<char>, k: Seq<char>) -> S3View {
        if !self.has_object(b, k) {
            self
        } else {
            let i = self.index_of(b, k);
            let o = self.objects[i];
            if !o.completed {
                self
            } else if self.has_upload(b, k) {
                S3View {
                    objects: self.objects.update(i, ObjectView { completed: false, body: Seq::empty(), ..o }),
                    ..self
                }
            } else {
                S3View { objects: self.objects.remove(i), ..self }
            }
        }
    }

    /// The state after deleting, from bucket `b` and in order, the key of
    /// each identifier of `ids` that has one.
    pub open spec fn delete_all(self, b: Seq<char>, ids: Seq<Option<Seq<char>>>) -> S3View
        decreases ids.len(),
    {
        if ids.len() == 0 {
            self
        } else {
            let w = self.delete_all(b, ids.drop_last());
            match ids.last() {
                Some(k) => w.delete_one(b, k),
                None => w,
            }
        }
    }
}

/// What a listing of bucket `b` shows of `objs`: key and size of each object
/// in it, in order; with a prefix, only the complete objects whose key starts
/// with it.
pub open spec fn listed(objs: Seq<ObjectView>, b: Seq<char>, prefix: Option<Seq<char>>) -> Seq<(Seq<char>, i64)>
    decreases objs.len(),
{
    if objs.len() == 0 {
        Seq::empty()
    } else {
        let o = objs.last();
        let rest = listed(objs.drop_last(), b, prefix);
        let shown = o.bucket == b && match prefix {
            Some(p) => has_prefix(o.key, p) && o.completed,
            None => true,
        };
        if shown {
            rest.push((o.key, o.content_length))
        } else {
            rest
        }
    }
}

/// No two uploads of one object share an id.
pub open spec fn uploads_unique(us: Seq<UploadView>) -> bool {
    forall|i: int, j: int|
        0 <= i < us.len() && 0 <= j < us.len() && i != j ==> !(us[i].bucket == us[j].bucket && us[i].key
            == us[j].key && us[i].id == us[j].id)
}

/// Uploaded part `p` is the one that `c` names.
pub open spec fn part_matches(p: PartView, c: CompletedPart) -> bool {
    p.part_number == c.part_number && match c.e_tag {
        Some(t) => p.e_tag == t@,
        None => true,
    }
}

/// `parts[i]` is the first part that `c` names.
pub open spec fn first_match(parts: Seq<PartView>, c: CompletedPart, i: int) -> bool {
    0 <= i < parts.len() && part_matches(parts[i], c) && forall|l: int| 0 <= l < i ==> !part_matches(parts[l], c)
}

/// Part `i` is the first part named by some entry of `req`.
pub open spec fn chosen(parts: Seq<PartView>, req: Seq<CompletedPart>, i: int) -> bool {
    exists|j: int| 0 <= j < req.len() && first_match(parts, #[trigger] req[j], i)
}

/// The body that completing an upload assembles from the first `n` parts:
/// the chosen ones, in the order they were uploaded.
pub open spec fn assembled(parts: Seq<PartView>, req: Seq<CompletedPart>, n: int) -> Seq<u8>
    decreases n,
{
    if n <= 0 {
        Seq::empty()
    } else {
        assembled(parts, req, n - 1) + if chosen(parts, req, n - 1) {
            parts[n - 1].body
        } else {
            Seq::empty()
        }
    }
}

/// `c` shows the listing `l`: one entry per listed object, in order, with
/// its key and size and no entity tag.
pub open spec fn shows_all(c: Seq<Object>, l: Seq<(Seq<char>, i64)>) -> bool {
    &&& c.len() == l.len()
    &&& forall|j: int|
        0 <= j < l.len() ==> opt_chars((#[trigger] c[j]).key) == Some(l[j].0) && c[j].size == l[j].1
            && c[j].e_tag is None
}

/// The contents of a listing show `l`.
pub open spec fn shows(contents: Option<Vec<Object>>, l: Seq<(Seq<char>, i64)>) -> bool {
    match contents {
        Some(c) => shows_all(c@, l),
        None => false,
    }
}

/// The keys named in a batch delete, skipping identifiers without one.
pub open spec fn keys_of(ids: Seq<Option<Seq<char>>>) -> Seq<Seq<char>>
    decreases ids.len(),
{
    if ids.len() == 0 {
        Seq::empty()
    } else {
        let rest = keys_of(ids.drop_last());
        match ids.last() {
            Some(k) => rest.push(k),
            None => rest,
        }
    }
}

/// The characters of each string of `v`.
pub open spec fn ids_of(v: Seq<String>) -> Seq<Seq<char>> {
    v.map_values(|s: String| s@)
}

/// The characters of an optional string.
pub open spec fn opt_chars(o: Option<String>) -> Option<Seq<char>> {
    match o {
        Some(s) => Some(s@),
        None => None,
    }
}

struct StoredObject {
    bucket: String,
    key: String,
    body: Vec<u8>,
    completed: bool,
    content_length: i64,
}

struct ObjectPart {
    part_number: i32,
    body: Vec<u8>,
    e_tag: String,
}

struct Upload {
    bucket: String,
    key: String,
    id: String,
    parts: Vec<ObjectPart>,
}

spec fn object_view(o: StoredObject) -> ObjectView {
    ObjectView {
        bucket: o.bucket@,
        key: o.key@,
        body: o.body@,
        completed: o.completed,
        content_length: o.content_length,
    }
}

spec fn part_view(p: ObjectPart) -> PartView {
    PartView { part_number: p.part_number, body: p.body@, e_tag: p.e_tag@ }
}

spec fn upload_view(u: Upload) -> UploadView {
    UploadView { bucket: u.bucket@, key: u.key@, id: u.id@, parts: parts_view(u.parts@) }
}

spec fn parts_view(s: Seq<ObjectPart>) -> Seq<PartView> {
    s.map_values(|p: ObjectPart| part_view(p))
}

spec fn objects_view(s: Seq<StoredObject>) -> Seq<ObjectView> {
    s.map_values(|o: StoredObject| object_view(o))
}

/// The object-storage service.
pub struct S3Service {
    buckets: Vec<String>,
    objects: Vec<StoredObject>,
    uploads: Vec<Upload>,
    lifecycle: Vec<(String, Vec<LifecycleRule>)>,
}

impl View for S3Service {
    type V = S3View;

    closed spec fn view(&self) -> S3View {
        S3View {
            buckets: self.buckets@.map_values(|b: String| b@),
            objects: objects_view(self.objects@),
            uploads: self.uploads@.map_values(|u: Upload| upload_view(u)),
            lifecycle: self.lifecycle@.map_values(|e: (String, Vec<LifecycleRule>)| (e.0@, e.1@)),
        }
    }
}

proof fn lemma_pair_order(b1: Seq<char>, k1: Seq<char>, b2: Seq<char>, k2: Seq<char>)
    ensures
        (b1 == b2 && k1 == k2) || pair_lt(b1, k1, b2, k2) || pair_lt(b2, k2, b1, k1),
        !(pair_lt(b1, k1, b2, k2) && pair_lt(b2, k2, b1, k1)),
        !(pair_lt(b1, k1, b2, k2) && b1 == b2 && k1 == k2),
{
    lemma_seq_lt_trichotomy(b1, b2);
    lemma_seq_lt_trichotomy(k1, k2);
}

proof fn lemma_pair_transitive(
    b1: Seq<char>,
    k1: Seq<char>,
    b2: Seq<char>,
    k2: Seq<char>,
    b3: Seq<char>,
    k3: Seq<char>,
)
    requires
        pair_lt(b1, k1, b2, k2),
        pair_lt(b2, k2, b3, k3),
    ensures
        pair_lt(b1, k1, b3, k3),
{
    if seq_lt(b1, b2) && seq_lt(b2, b3) {
        lemma_seq_lt_transitive(b1, b2, b3);
    }
    if b1 == b2 && b2 == b3 && seq_lt(k1, k2) && seq_lt(k2, k3) {
        lemma_seq_lt_transitive(k1, k2, k3);
    }
}

/// Two copies of a lifecycle rule list hold the same rules.
fn clone_rules(v: &Vec<LifecycleRule>) -> (r: Vec<LifecycleRule>)
    ensures
        r@ == v@,
{
    let mut out: Vec<LifecycleRule> = Vec::new();
    let mut i: usize = 0;
    while i < v.len()
        invariant
            i <= v@.len(),
            out@ == v@.subrange(0, i as int),
        decreases v@.len() - i,
    {
        let r = &v[i];
        let id = match &r.id {
            Some(s) => Some(s.clone()),
            None => None,
        };
        let prefix = match &r.prefix {
            Some(s) => Some(s.clone()),
            None => None,
        };
        out.push(LifecycleRule { id, prefix, status: r.status, expiration_days: r.expiration_days });
        assert(out@ =~= v@.subrange(0, i + 1));
        i = i + 1;
    }
    assert(v@.subrange(0, v@.len() as int) =~= v@);
    out
}

impl S3Service {
    pub open spec fn wf(&self) -> bool {
        self@.wf()
    }

    /// A service with no bucket.
    pub fn new() -> (r: S3Service)
        ensures
            r.wf(),
            r@.buckets.len() == 0,
            r@.objects.len() == 0,
            r@.uploads.len() == 0,
            r@.lifecycle.len() == 0,
    {
        let r = S3Service { buckets: Vec::new(), objects: Vec::new(), uploads: Vec::new(), lifecycle: Vec::new() };
        assert(r@.buckets =~= Seq::empty());
        assert(r@.objects =~= Seq::empty());
        assert(r@.lifecycle =~= Seq::empty());
        r
    }

    fn has_bucket(&self, name: &str) -> (r: bool)
        ensures
            r == self@.buckets.contains(name@),
    {
        let mut i: usize = 0;
        while i < self.buckets.len()
            invariant
                i <= self.buckets@.len(),
                forall|k: int| 0 <= k < i ==> self@.buckets[k] != name@,
            decreases self.buckets@.len() - i,
        {
            if str_eq(self.buckets[i].as_str(), name) {
                assert(self@.buckets[i as int] == name@);
                return true;
            }
            i = i + 1;
        }
        false
    }

    /// Whether a bucket of that name exists.
    pub fn bucket_exists(&self, name: &str) -> (r: bool)
        ensures
            r == self@.buckets.contains(name@),
    {
        self.has_bucket(name)
    }

    /// Creates an empty bucket. Bucket names are unique: creating one that
    /// exists is a configuration error that the caller must not make.
    pub fn create_bucket(&mut self, name: &str)
        requires
            old(self).wf(),
            !old(self)@.buckets.contains(name@),
        ensures
            final(self).wf(),
            final(self)@ == (S3View { buckets: old(self)@.buckets.push(name@), ..old(self)@ }),
    {
        let ghost before = self@;
        self.buckets.push(name.to_owned());
        assert(self@.buckets =~= before.buckets.push(name@));
        assert forall|i: int| 0 <= i < before.buckets.len() implies before.buckets[i] != name@ by {
            assert(before.buckets.contains(before.buckets[i]));
        }
    }

    fn find_object(&self, b: &str, k: &str) -> (r: Option<usize>)
        requires
            self.wf(),
        ensures
            match r {
                Some(i) => self@.object_at(i as int, b@, k@),
                None => !self@.has_object(b@, k@),
            },
    {
        let mut i: usize = 0;
        while i < self.objects.len()
            invariant
                i <= self.objects@.len(),
                forall|j: int| 0 <= j < i ==> !self@.object_at(j, b@, k@),
            decreases self.objects@.len() - i,
        {
            if str_eq(self.objects[i].bucket.as_str(), b) && str_eq(self.objects[i].key.as_str(), k) {
                return Some(i);
            }
            i = i + 1;
        }
        None
    }

    /// Where an object at `(b, k)`, not yet stored, goes to keep the order.
    fn insert_point(&self, b: &str, k: &str) -> (p: usize)
        requires
            self.wf(),
            !self@.has_object(b@, k@),
        ensures
            p <= self@.objects.len(),
            forall|j: int| 0 <= j < p ==> pair_lt(self@.objects[j].bucket, self@.objects[j].key, b@, k@),
            forall|j: int|
                p <= j < self@.objects.len() ==> pair_lt(b@, k@, self@.objects[j].bucket, self@.objects[j].key),
    {
        let mut p: usize = 0;
        while p < self.objects.len()
            invariant
                p <= self.objects@.len(),
                self.wf(),
                !self@.has_object(b@, k@),
                forall|j: int| 0 <= j < p ==> pair_lt(self@.objects[j].bucket, self@.objects[j].key, b@, k@),
            decreases self.objects@.len() - p,
        {
            let o = &self.objects[p];
            let before = str_lt(o.bucket.as_str(), b) || (str_eq(o.bucket.as_str(), b) && str_lt(
                o.key.as_str(),
                k,
            ));
            if !before {
                proof {
                    let ov = self@.objects[p as int];
                    lemma_pair_order(ov.bucket, ov.key, b@, k@);
                    assert(!self@.object_at(p as int, b@, k@));
                    assert forall|j: int| p <= j < self@.objects.len() implies pair_lt(
                        b@,
                        k@,
                        self@.objects[j].bucket,
                        self@.objects[j].key,
                    ) by {
                        if j > p {
                            assert(obj_lt(self@.objects[p as int], self@.objects[j]));
                            lemma_pair_transitive(
                                b@,
                                k@,
                                ov.bucket,
                                ov.key,
                                self@.objects[j].bucket,
                                self@.objects[j].key,
                            );
                        }
                    }
                }
                return p;
            }
            p = p + 1;
        }
        p
    }

    proof fn lemma_insert_keeps_order(v: S3View, p: int, o: ObjectView)
        requires
            v.wf(),
            0 <= p <= v.objects.len(),
            forall|j: int| 0 <= j < p ==> pair_lt(v.objects[j].bucket, v.objects[j].key, o.bucket, o.key),
            forall|j: int| p <= j < v.objects.len() ==> pair_lt(o.bucket, o.key, v.objects[j].bucket, v.objects[j].key),
        ensures
            (S3View { objects: v.objects.insert(p, o), ..v }).wf(),
    {
        let w = v.objects.insert(p, o);
        assert forall|i: int, j: int| 0 <= i < j < w.len() implies obj_lt(#[trigger] w[i], #[trigger] w[j]) by {
            if j < p {
                assert(w[i] == v.objects[i] && w[j] == v.objects[j]);
            } else if j == p {
                assert(w[i] == v.objects[i]);
            } else if i < p {
                assert(w[i] == v.objects[i] && w[j] == v.objects[j - 1]);
                lemma_pair_transitive(w[i].bucket, w[i].key, o.bucket, o.key, w[j].bucket, w[j].key);
            } else if i == p {
                assert(w[j] == v.objects[j - 1]);
            } else {
                assert(w[i] == v.objects[i - 1] && w[j] == v.objects[j - 1]);
            }
        }
    }

    proof fn lemma_object_unique(v: S3View, i: int, b: Seq<char>, k: Seq<char>)
        requires
            v.wf(),
            v.object_at(i, b, k),
        ensures
            v.index_of(b, k) == i,
            forall|j: int| v.object_at(j, b, k) ==> j == i,
    {
        assert forall|j: int| v.object_at(j, b, k) implies j == i by {
            if j < i {
                assert(obj_lt(v.objects[j], v.objects[i]));
                lemma_pair_order(b, k, b, k);
            } else if j > i {
                assert(obj_lt(v.objects[i], v.objects[j]));
                lemma_pair_order(b, k, b, k);
            }
        }
    }

    /// Stores `body` as the complete object at `(bucket, key)`, replacing the
    /// body of an object that is there; `NoSuchBucket` if there is no such
    /// bucket.
    pub fn put_object(&mut self, bucket: &str, key: &str, body: Vec<u8>) -> (r: Result<PutObjectOutput, S3Error>)
        requires
            old(self).wf(),
        ensures
            final(self).wf(),
            !old(self)@.buckets.contains(bucket@) ==> (r matches Err(S3Error::NoSuchBucket(m)) && m@ == bucket@
                && final(self)@ == old(self)@),
            old(self)@.buckets.contains(bucket@) ==> r is Ok,
            old(self)@.buckets.contains(bucket@) && old(self)@.has_object(bucket@, key@) ==> ({
                let i = old(self)@.index_of(bucket@, key@);
                final(self)@ == (S3View {
                    objects: old(self)@.objects.update(
                        i,
                        ObjectView { body: body@, completed: true, ..old(self)@.objects[i] },
                    ),
                    ..old(self)@
                })
            }),
            old(self)@.buckets.contains(bucket@) && !old(self)@.has_object(bucket@, key@) ==> exists|p: int|
                0 <= p <= old(self)@.objects.len() && final(self)@ == #[trigger] old(self)@.with_object_at(
                    p,
                    ObjectView { bucket: bucket@, key: key@, body: body@, completed: true, content_length: 0 },
                ),
    {
        if !self.has_bucket(bucket) {
            return Err(S3Error::NoSuchBucket(bucket.to_owned()));
        }
        let ghost v = self@;
        let ghost bv = body@;
        match self.find_object(bucket, key) {
            Some(i) => {
                let o = self.objects.remove(i);
                self.objects.insert(i, StoredObject { body, completed: true, ..o });
                proof {
                    Self::lemma_object_unique(v, i as int, bucket@, key@);
                    let nv = ObjectView { body: bv, completed: true, ..v.objects[i as int] };
                    assert(self@.objects =~= v.objects.update(i as int, nv));
                    assert(self@.buckets =~= v.buckets);
                    assert(self@.lifecycle =~= v.lifecycle);
                    assert(self@.uploads =~= v.uploads);
                    assert forall|a: int, c: int| 0 <= a < c < self@.objects.len() implies obj_lt(
                        #[trigger] self@.objects[a],
                        #[trigger] self@.objects[c],
                    ) by {
                        assert(obj_lt(v.objects[a], v.objects[c]));
                    }
                }
                Ok(PutObjectOutput {})
            },
            None => {
                let p = self.insert_point(bucket, key);
                self.objects.insert(
                    p,
                    StoredObject {
                        bucket: bucket.to_owned(),
                        key: key.to_owned(),
                        body,
                        completed: true,
                        content_length: 0,
                    },
                );
                proof {
                    let nv = ObjectView { bucket: bucket@, key: key@, body: bv, completed: true, content_length: 0 };
                    assert(self@.objects =~= v.objects.insert(p as int, nv));
                    assert(self@.buckets =~= v.buckets);
                    assert(self@.lifecycle =~= v.lifecycle);
                    assert(self@.uploads =~= v.uploads);
                    Self::lemma_insert_keeps_order(v, p as int, nv);
                    assert(self@ == v.with_object_at(p as int, nv));
                }
                Ok(PutObjectOutput {})
            },
        }
    }

    /// The stored object at `(bucket, key)` when the bucket exists and the
    /// object is complete; the error of a read otherwise.
    fn readable(&self, bucket: &str, key: &str) -> (r: Result<usize, S3Error>)
        requires
            self.wf(),
        ensures
            !self@.buckets.contains(bucket@) ==> (r matches Err(S3Error::NoSuchBucket(m)) && m@ == bucket@),
            self@.buckets.contains(bucket@) && !(self@.has_object(bucket@, key@) && self@.objects[self@.index_of(
                bucket@,
                key@,
            )].completed) ==> (r matches Err(S3Error::NoSuchKey(m)) && m@ == key@),
            self@.buckets.contains(bucket@) && self@.has_object(bucket@, key@) && self@.objects[self@.index_of(
                bucket@,
                key@,
            )].completed ==> (r matches Ok(i) && i as int == self@.index_of(bucket@, key@)),
    {
        if !self.has_bucket(bucket) {
            return Err(S3Error::NoSuchBucket(bucket.to_owned()));
        }
        match self.find_object(bucket, key) {
            None => Err(S3Error::NoSuchKey(key.to_owned())),
            Some(i) => {
                proof {
                    Self::lemma_object_unique(self@, i as int, bucket@, key@);
                }
                if self.objects[i].completed {
                    Ok(i)
                } else {
                    Err(S3Error::NoSuchKey(key.to_owned()))
                }
            },
        }
    }

    /// The size recorded for the complete object at `(bucket, key)`;
    /// `NoSuchBucket`, or `NotFound` when there is no complete object there.
    pub fn head_object(&self, bucket: &str, key: &str) -> (r: Result<HeadObjectOutput, S3Error>)
        requires
            self.wf(),
        ensures
            !self@.buckets.contains(bucket@) ==> (r matches Err(S3Error::NoSuchBucket(m)) && m@ == bucket@),
            self@.buckets.contains(bucket@) && !(self@.has_object(bucket@, key@) && self@.objects[self@.index_of(
                bucket@,
                key@,
            )].completed) ==> (r matches Err(S3Error::NotFound(m)) && m@ == key@),
            self@.buckets.contains(bucket@) && self@.has_object(bucket@, key@) && self@.objects[self@.index_of(
                bucket@,
                key@,
            )].completed ==> r == Ok::<HeadObjectOutput, S3Error>(
                HeadObjectOutput { content_length: self@.objects[self@.index_of(bucket@, key@)].content_length },
            ),
    {
        match self.readable(bucket, key) {
            Ok(i) => Ok(HeadObjectOutput { content_length: self.objects[i].content_length }),
            Err(S3Error::NoSuchKey(_)) => Err(S3Error::NotFound(key.to_owned())),
            Err(e) => Err(e),
        }
    }

    fn delete_key(&mut self, bucket: &str, key: &str)
        requires
            old(self).wf(),
        ensures
            final(self).wf(),
            final(self)@ == old(self)@.delete_one(bucket@, key@),
    {
        let ghost v = self@;
        let i = match self.find_object(bucket, key) {
            None => return,
            Some(i) => i,
        };
        proof {
            Self::lemma_object_unique(v, i as int, bucket@, key@);
        }
        if !self.objects[i].completed {
            return;
        }
        if self.upload_exists(bucket, key) {
            let o = self.objects.remove(i);
            self.objects.insert(i, StoredObject { completed: false, body: Vec::new(), ..o });
            proof {
                let nv = ObjectView { completed: false, body: Seq::empty(), ..v.objects[i as int] };
                assert(object_view(self.objects@[i as int]).body =~= Seq::<u8>::empty());
                assert(self@.objects =~= v.objects.update(i as int, nv));
                assert(self@.buckets =~= v.buckets);
                assert(self@.lifecycle =~= v.lifecycle);
                assert(self@.uploads =~= v.uploads);
                assert forall|a: int, c: int| 0 <= a < c < self@.objects.len() implies obj_lt(
                    #[trigger] self@.objects[a],
                    #[trigger] self@.objects[c],
                ) by {
                    assert(obj_lt(v.objects[a], v.objects[c]));
                }
            }
        } else {
            self.objects.remove(i);
            proof {
                assert(self@.objects =~= v.objects.remove(i as int));
                assert(self@.buckets =~= v.buckets);
                assert(self@.lifecycle =~= v.lifecycle);
                assert(self@.uploads =~= v.uploads);
                assert forall|a: int, c: int| 0 <= a < c < self@.objects.len() implies obj_lt(
                    #[trigger] self@.objects[a],
                    #[trigger] self@.objects[c],
                ) by {
                    let a0 = if a < i { a } else { a + 1 };
                    let c0 = if c < i { c } else { c + 1 };
                    assert(self@.objects[a] == v.objects[a0]);
                    assert(self@.objects[c] == v.objects[c0]);
                    assert(obj_lt(v.objects[a0], v.objects[c0]));
                }
            }
        }
    }

    fn upload_exists(&self, bucket: &str, key: &str) -> (r: bool)
        ensures
            r == self@.has_upload(bucket@, key@),
    {
        let mut i: usize = 0;
        while i < self.uploads.len()
            invariant
                i <= self.uploads@.len(),
                forall|j: int| 0 <= j < i ==> !(self@.uploads[j].bucket == bucket@ && self@.uploads[j].key == key@),
            decreases self.uploads@.len() - i,
        {
            if str_eq(self.uploads[i].bucket.as_str(), bucket) && str_eq(self.uploads[i].key.as_str(), key) {
                assert(self@.uploads[i as int].bucket == bucket@ && self@.uploads[i as int].key == key@);
                return true;
            }
            i = i + 1;
        }
        false
    }

    /// Deletes the object at `(bucket, key)` as `delete_one` says; deleting
    /// what is not there succeeds. `NoSuchBucket` if there is no such bucket.
    pub fn delete_object(&mut self, bucket: &str, key: &str) -> (r: Result<DeleteObjectOutput, S3Error>)
        requires
            old(self).wf(),
        ensures
            final(self).wf(),
            !old(self)@.buckets.contains(bucket@) ==> (r matches Err(S3Error::NoSuchBucket(m)) && m@ == bucket@
                && final(self)@ == old(self)@),
            old(self)@.buckets.contains(bucket@) ==> r is Ok && final(self)@ == old(self)@.delete_one(
                bucket@,
                key@,
            ),
    {
        if !self.has_bucket(bucket) {
            return Err(S3Error::NoSuchBucket(bucket.to_owned()));
        }
        self.delete_key(bucket, key);
        Ok(DeleteObjectOutput {})
    }

    /// Deletes each object that `delete` names from `bucket`, in order, and
    /// reports every named key as deleted. `NoSuchBucket` if there is no such
    /// bucket.
    pub fn delete_objects(&mut self, bucket: &str, delete: Delete) -> (r: Result<DeleteObjectsOutput, S3Error>)
        requires
            old(self).wf(),
        ensures
            final(self).wf(),
            !old(self)@.buckets.contains(bucket@) ==> (r matches Err(S3Error::NoSuchBucket(m)) && m@ == bucket@
                && final(self)@ == old(self)@),
            old(self)@.buckets.contains(bucket@) ==> (r matches Ok(out) && ({
                let ids = match delete.objects {
                    Some(v) => v@.map_values(|i: crate::model::ObjectIdentifier| opt_chars(i.key)),
                    None => Seq::empty(),
                };
                &&& out.deleted@.map_values(|s: String| s@) == keys_of(ids)
                &&& final(self)@ == old(self)@.delete_all(bucket@, ids)
            })),
    {
        if !self.has_bucket(bucket) {
            return Err(S3Error::NoSuchBucket(bucket.to_owned()));
        }
        let ids = match delete.objects {
            Some(v) => v,
            None => Vec::new(),
        };
        let ghost idv = ids@.map_values(|i: crate::model::ObjectIdentifier| opt_chars(i.key));
        let ghost v0 = self@;
        let mut deleted: Vec<String> = Vec::new();
        let mut i: usize = 0;
        while i < ids.len()
            invariant
                i <= ids@.len(),
                self.wf(),
                idv == ids@.map_values(|i: crate::model::ObjectIdentifier| opt_chars(i.key)),
                deleted@.map_values(|s: String| s@) == keys_of(idv.subrange(0, i as int)),
                self@ == v0.delete_all(bucket@, idv.subrange(0, i as int)),
            decreases ids@.len() - i,
        {
            proof {
                assert(idv.subrange(0, i + 1).drop_last() =~= idv.subrange(0, i as int));
            }
            let ghost before = deleted@;
            match &ids[i].key {
                Some(k) => {
                    self.delete_key(bucket, k.as_str());
                    deleted.push(k.clone());
                    assert(deleted@.map_values(|s: String| s@) =~= before.map_values(|s: String| s@).push(k@));
                },
                None => {},
            }
            i = i + 1;
        }
        assert(idv.subrange(0, ids@.len() as int) =~= idv);
        Ok(DeleteObjectsOutput { deleted })
    }

    /// Reads the complete object at `(bucket, key)`: all of it, or the byte
    /// range that `range` selects. A part number, without a range, is checked
    /// against the body's length and then refused as unsupported.
    pub fn get_object(&self, bucket: &str, key: &str, range: Option<&str>, part_number: Option<i32>) -> (r:
        Result<GetObjectOutput, S3Error>)
        requires
            self.wf(),
        ensures
            !self@.buckets.contains(bucket@) ==> (r matches Err(S3Error::NoSuchBucket(m)) && m@ == bucket@),
            self@.buckets.contains(bucket@) && !self@.readable(bucket@, key@) ==> (r matches Err(
                S3Error::NoSuchKey(m),
            ) && m@ == key@),
            self@.buckets.contains(bucket@) && self@.readable(bucket@, key@) ==> ({
                let d = self@.objects[self@.index_of(bucket@, key@)].body;
                match range {
                    Some(rg) => match range_bounds(rg@, d.len() as int) {
                        RangeSpec::Slice(a, b) => r matches Ok(o) && o.body@ == d.subrange(a, b),
                        RangeSpec::UnsupportedUnit(u) => r matches Err(S3Error::UnsupportedRangeUnit(m)) && m@ == u,
                        RangeSpec::Invalid => r matches Err(S3Error::InvalidRange(m)) && m@ == rg@,
                    },
                    None => match part_number {
                        Some(n) => if n < 0 || n >= d.len() {
                            r == Err::<GetObjectOutput, S3Error>(S3Error::InvalidPartNumber(n))
                        } else {
                            r == Err::<GetObjectOutput, S3Error>(S3Error::PartNumberUnsupported(n))
                        },
                        None => r matches Ok(o) && o.body@ == d,
                    },
                }
            }),
    {
        let i = match self.readable(bucket, key) {
            Ok(i) => i,
            Err(e) => return Err(e),
        };
        let body = &self.objects[i].body;
        match range {
            Some(rg) => match parse_range(rg, body.len()) {
                Ok((a, b)) => Ok(GetObjectOutput { body: copy_bytes(body, a, b) }),
                Err(Some(unit)) => Err(S3Error::UnsupportedRangeUnit(unit)),
                Err(None) => Err(S3Error::InvalidRange(rg.to_owned())),
            },
            None => match part_number {
                Some(n) => {
                    if n < 0 || n as usize >= body.len() {
                        Err(S3Error::InvalidPartNumber(n))
                    } else {
                        Err(S3Error::PartNumberUnsupported(n))
                    }
                },
                None => Ok(GetObjectOutput { body: copy_bytes(body, 0, body.len()) }),
            },
        }
    }

    /// Lists bucket `bucket` in key order as `listed` says, never truncated;
    /// `NoSuchBucket` if there is no such bucket.
    pub fn list_objects_v2(&self, bucket: &str, prefix: Option<&str>) -> (r: Result<ListObjectsV2Output, S3Error>)
        requires
            self.wf(),
        ensures
            !self@.buckets.contains(bucket@) ==> (r matches Err(S3Error::NoSuchBucket(m)) && m@ == bucket@),
            self@.buckets.contains(bucket@) ==> (r matches Ok(out) && !out.is_truncated
                && out.next_continuation_token is None && shows(
                out.contents,
                listed(
                    self@.objects,
                    bucket@,
                    match prefix {
                        Some(p) => Some(p@),
                        None => None,
                    },
                ),
            )),
    {
        if !self.has_bucket(bucket) {
            return Err(S3Error::NoSuchBucket(bucket.to_owned()));
        }
        let ghost pv = match prefix {
            Some(p) => Some(p@),
            None => None::<Seq<char>>,
        };
        let mut out: Vec<Object> = Vec::new();
        let mut i: usize = 0;
        while i < self.objects.len()
            invariant
                i <= self.objects@.len(),
                pv == match prefix {
                    Some(p) => Some(p@),
                    None => None::<Seq<char>>,
                },
                shows_all(out@, listed(self@.objects.subrange(0, i as int), bucket@, pv)),
            decreases self.objects@.len() - i,
        {
            proof {
                assert(self@.objects.subrange(0, i + 1).drop_last() =~= self@.objects.subrange(0, i as int));
            }
            let o = &self.objects[i];
            let shown = str_eq(o.bucket.as_str(), bucket) && match prefix {
                Some(p) => str_has_prefix(o.key.as_str(), p) && o.completed,
                None => true,
            };
            if shown {
                out.push(Object { key: Some(o.key.clone()), e_tag: None, size: o.content_length });
            }
            i = i + 1;
        }
        assert(self@.objects.subrange(0, self@.objects.len() as int) =~= self@.objects);
        Ok(ListObjectsV2Output { is_truncated: false, contents: Some(out), next_continuation_token: None })
    }

    fn find_rules(&self, bucket: &str) -> (r: Option<usize>)
        ensures
            match r {
                Some(i) => i < self@.lifecycle.len() && self@.lifecycle[i as int].0 == bucket@,
                None => forall|i: int| 0 <= i < self@.lifecycle.len() ==> self@.lifecycle[i].0 != bucket@,
            },
    {
        let mut i: usize = 0;
        while i < self.lifecycle.len()
            invariant
                i <= self.lifecycle@.len(),
                forall|j: int| 0 <= j < i ==> self@.lifecycle[j].0 != bucket@,
            decreases self.lifecycle@.len() - i,
        {
            if str_eq(self.lifecycle[i].0.as_str(), bucket) {
                return Some(i);
            }
            i = i + 1;
        }
        None
    }

    /// The lifecycle rules of `bucket`; a bucket without any gets an empty
    /// list recorded.
    pub fn get_bucket_lifecycle_configuration(&mut self, bucket: &str) -> (r: Result<
        GetBucketLifecycleConfigurationOutput,
        S3Error,
    >)
        requires
            old(self).wf(),
        ensures
            final(self).wf(),
            forall|i: int|
                0 <= i < old(self)@.lifecycle.len() && old(self)@.lifecycle[i].0 == bucket@ ==> (r matches Ok(out)
                    && out.rules matches Some(v) && v@ == old(self)@.lifecycle[i].1 && final(self)@ == old(self)@),
            (forall|i: int| 0 <= i < old(self)@.lifecycle.len() ==> old(self)@.lifecycle[i].0 != bucket@) ==> (r matches Ok(
                out,
            ) && out.rules matches Some(v) && v@.len() == 0 && final(self)@ == (S3View {
                lifecycle: old(self)@.lifecycle.push((bucket@, Seq::empty())),
                ..old(self)@
            })),
    {
        match self.find_rules(bucket) {
            Some(i) => {
                let rules = clone_rules(&self.lifecycle[i].1);
                proof {
                    assert forall|j: int|
                        0 <= j < self@.lifecycle.len() && self@.lifecycle[j].0 == bucket@ implies j == i by {}
                }
                Ok(GetBucketLifecycleConfigurationOutput { rules: Some(rules) })
            },
            None => {
                let ghost v = self@;
                self.lifecycle.push((bucket.to_owned(), Vec::new()));
                proof {
                    assert(self@.lifecycle =~= v.lifecycle.push((bucket@, Seq::empty())));
                    assert(self@.buckets =~= v.buckets);
                    assert(self@.objects =~= v.objects);
                    assert(self@.uploads =~= v.uploads);
                }
                Ok(GetBucketLifecycleConfigurationOutput { rules: Some(Vec::new()) })
            },
        }
    }

    /// Sets the lifecycle rules of `bucket` to those of `config`; no
    /// configuration, or one without rules, sets an empty list.
    pub fn put_bucket_lifecycle_configuration(
        &mut self,
        bucket: &str,
        config: Option<BucketLifecycleConfiguration>,
    ) -> (r: Result<PutBucketLifecycleConfigurationOutput, S3Error>)
        requires
            old(self).wf(),
        ensures
            final(self).wf(),
            r is Ok,
            ({
                let rules = match config {
                    Some(c) => match c.rules {
                        Some(v) => v@,
                        None => Seq::empty(),
                    },
                    None => Seq::empty(),
                };
                &&& forall|i: int|
                    0 <= i < old(self)@.lifecycle.len() && old(self)@.lifecycle[i].0 == bucket@ ==> final(self)@
                        == (S3View { lifecycle: old(self)@.lifecycle.update(i, (bucket@, rules)), ..old(self)@ })
                &&& (forall|i: int| 0 <= i < old(self)@.lifecycle.len() ==> old(self)@.lifecycle[i].0 != bucket@)
                    ==> final(self)@ == (S3View {
                    lifecycle: old(self)@.lifecycle.push((bucket@, rules)),
                    ..old(self)@
                })
            }),
    {
        let rules = match config {
            Some(c) => match c.rules {
                Some(v) => v,
                None => Vec::new(),
            },
            None => Vec::new(),
        };
        let ghost v = self@;
        let ghost rv = rules@;
        match self.find_rules(bucket) {
            Some(i) => {
                let name = bucket.to_owned();
                self.lifecycle.set(i, (name, rules));
                proof {
                    assert(self@.lifecycle =~= v.lifecycle.update(i as int, (bucket@, rv)));
                    assert(self@.buckets =~= v.buckets);
                    assert(self@.objects =~= v.objects);
                    assert(self@.uploads =~= v.uploads);
                    assert forall|j: int|
                        0 <= j < v.lifecycle.len() && v.lifecycle[j].0 == bucket@ implies j == i by {}
                }
            },
            None => {
                self.lifecycle.push((bucket.to_owned(), rules));
                proof {
                    assert(self@.lifecycle =~= v.lifecycle.push((bucket@, rv)));
                    assert(self@.buckets =~= v.buckets);
                    assert(self@.objects =~= v.objects);
                    assert(self@.uploads =~= v.uploads);
                }
            },
        }
        Ok(PutBucketLifecycleConfigurationOutput {})
    }

    fn find_upload(&self, b: &str, k: &str, id: &str) -> (r: Option<usize>)
        ensures
            match r {
                Some(u) => self@.upload_at(u as int, b@, k@, id@),
                None => !self@.has_upload_id(b@, k@, id@),
            },
    {
        let mut i: usize = 0;
        while i < self.uploads.len()
            invariant
                i <= self.uploads@.len(),
                forall|j: int| 0 <= j < i ==> !self@.upload_at(j, b@, k@, id@),
            decreases self.uploads@.len() - i,
        {
            let u = &self.uploads[i];
            if str_eq(u.bucket.as_str(), b) && str_eq(u.key.as_str(), k) && str_eq(u.id.as_str(), id) {
                return Some(i);
            }
            i = i + 1;
        }
        None
    }

    fn first_unused(&self, b: &str, k: &str, candidates: &Vec<String>) -> (r: Option<usize>)
        ensures
            match r {
                Some(j) => self@.first_free(b@, k@, ids_of(candidates@), j as int),
                None => forall|l: int|
                    0 <= l < candidates@.len() ==> self@.has_upload_id(b@, k@, #[trigger] candidates@[l]@),
            },
    {
        let ghost cands = ids_of(candidates@);
        let mut j: usize = 0;
        while j < candidates.len()
            invariant
                j <= candidates@.len(),
                cands == ids_of(candidates@),
                forall|l: int| 0 <= l < j ==> self@.has_upload_id(b@, k@, #[trigger] candidates@[l]@),
            decreases candidates@.len() - j,
        {
            if self.find_upload(b, k, candidates[j].as_str()).is_none() {
                proof {
                    assert forall|l: int| 0 <= l < j implies self@.has_upload_id(b@, k@, cands[l]) by {
                        assert(cands[l] == candidates@[l]@);
                    }
                }
                return Some(j);
            }
            j = j + 1;
        }
        None
    }

    proof fn lemma_push_upload(v: S3View, x: UploadView)
        requires
            v.wf(),
            !v.has_upload_id(x.bucket, x.key, x.id),
        ensures
            (S3View { uploads: v.uploads.push(x), ..v }).wf(),
    {
        let w = v.uploads.push(x);
        assert forall|i: int, j: int|
            0 <= i < w.len() && 0 <= j < w.len() && i != j implies !(w[i].bucket == w[j].bucket && w[i].key
            == w[j].key && w[i].id == w[j].id) by {
            if i == v.uploads.len() {
                assert(!v.upload_at(j, x.bucket, x.key, x.id));
            } else if j == v.uploads.len() {
                assert(!v.upload_at(i, x.bucket, x.key, x.id));
            }
        }
    }

    proof fn lemma_remove_upload(v: S3View, u: int)
        requires
            v.wf(),
            0 <= u < v.uploads.len(),
        ensures
            (S3View { uploads: v.uploads.remove(u), ..v }).wf(),
    {
        let w = v.uploads.remove(u);
        assert forall|i: int, j: int|
            0 <= i < w.len() && 0 <= j < w.len() && i != j implies !(w[i].bucket == w[j].bucket && w[i].key
            == w[j].key && w[i].id == w[j].id) by {
            let i0 = if i < u { i } else { i + 1 };
            let j0 = if j < u { j } else { j + 1 };
            assert(w[i] == v.uploads[i0]);
            assert(w[j] == v.uploads[j0]);
        }
    }

    /// Starts a multipart upload of the object at `(bucket, key)`, making the
    /// object, empty and incomplete, if it is not there. Its id is the first
    /// of `candidates` that no upload of that object uses;
    /// `UploadIdsExhausted`, with nothing changed, when every one is in use.
    pub fn create_multipart_upload(&mut self, bucket: &str, key: &str, candidates: &Vec<String>) -> (r: Result<
        CreateMultipartUploadOutput,
        S3Error,
    >)
        requires
            old(self).wf(),
        ensures
            final(self).wf(),
            !old(self)@.buckets.contains(bucket@) ==> (r matches Err(S3Error::NoSuchBucket(m)) && m@ == bucket@
                && final(self)@ == old(self)@),
            old(self)@.buckets.contains(bucket@) && (forall|l: int|
                0 <= l < candidates@.len() ==> old(self)@.has_upload_id(bucket@, key@, #[trigger] candidates@[l]@))
                ==> (r == Err::<CreateMultipartUploadOutput, S3Error>(S3Error::UploadIdsExhausted) && final(self)@
                == old(self)@),
            forall|j: int|
                old(self)@.buckets.contains(bucket@) && #[trigger] old(self)@.first_free(
                    bucket@,
                    key@,
                    ids_of(candidates@),
                    j,
                ) ==> (r matches Ok(out) && opt_chars(out.upload_id) == Some(candidates@[j]@) && ({
                    let x = UploadView { bucket: bucket@, key: key@, id: candidates@[j]@, parts: Seq::empty() };
                    &&& old(self)@.has_object(bucket@, key@) ==> final(self)@ == (S3View {
                        uploads: old(self)@.uploads.push(x),
                        ..old(self)@
                    })
                    &&& !old(self)@.has_object(bucket@, key@) ==> exists|p: int|
                        0 <= p <= old(self)@.objects.len() && final(self)@ == (S3View {
                            uploads: old(self)@.uploads.push(x),
                            ..#[trigger] old(self)@.with_object_at(
                                p,
                                ObjectView {
                                    bucket: bucket@,
                                    key: key@,
                                    body: Seq::empty(),
                                    completed: false,
                                    content_length: 0,
                                },
                            )
                        })
                })),
    {
        if !self.has_bucket(bucket) {
            return Err(S3Error::NoSuchBucket(bucket.to_owned()));
        }
        let ghost v = self@;
        let ghost cands = ids_of(candidates@);
        let j = match self.first_unused(bucket, key, candidates) {
            Some(j) => j,
            None => return Err(S3Error::UploadIdsExhausted),
        };
        proof {
            assert forall|l: int| #[trigger] v.first_free(bucket@, key@, cands, l) implies l == j by {
                if l < j {
                    assert(v.has_upload_id(bucket@, key@, cands[l]));
                } else if l > j {
                    assert(v.has_upload_id(bucket@, key@, cands[j as int]));
                }
            }
        }
        let id = candidates[j].clone();
        let ghost empty_obj = ObjectView {
            bucket: bucket@,
            key: key@,
            body: Seq::empty(),
            completed: false,
            content_length: 0,
        };
        let ghost mid;
        match self.find_object(bucket, key) {
            Some(_) => {
                proof {
                    mid = v;
                }
            },
            None => {
                let p = self.insert_point(bucket, key);
                self.objects.insert(
                    p,
                    StoredObject {
                        bucket: bucket.to_owned(),
                        key: key.to_owned(),
                        body: Vec::new(),
                        completed: false,
                        content_length: 0,
                    },
                );
                proof {
                    assert(object_view(self.objects@[p as int]).body =~= Seq::<u8>::empty());
                    assert(self@.objects =~= v.objects.insert(p as int, empty_obj));
                    assert(self@.buckets =~= v.buckets);
                    assert(self@.lifecycle =~= v.lifecycle);
                    assert(self@.uploads =~= v.uploads);
                    Self::lemma_insert_keeps_order(v, p as int, empty_obj);
                    mid = v.with_object_at(p as int, empty_obj);
                    assert(self@ == mid);
                }
            },
        }
        let ghost x = UploadView { bucket: bucket@, key: key@, id: cands[j as int], parts: Seq::empty() };
        self.uploads.push(Upload { bucket: bucket.to_owned(), key: key.to_owned(), id: id.clone(), parts: Vec::new() });
        proof {
            assert(upload_view(self.uploads@[self.uploads@.len() - 1]).parts =~= Seq::<PartView>::empty());
            assert(self@.uploads =~= mid.uploads.push(x));
            assert(self@.objects =~= mid.objects);
            assert(self@.buckets =~= mid.buckets);
            assert(self@.lifecycle =~= mid.lifecycle);
            assert(mid.uploads == v.uploads);
            assert(v.first_free(bucket@, key@, cands, j as int));
            assert(!v.has_upload_id(bucket@, key@, cands[j as int]));
            assert forall|q: int| !mid.upload_at(q, bucket@, key@, cands[j as int]) by {
                assert(!v.upload_at(q, bucket@, key@, cands[j as int]));
            }
            Self::lemma_push_upload(mid, x);
        }
        Ok(CreateMultipartUploadOutput { upload_id: Some(id) })
    }

    /// Finds the upload `upload_id` of the object at `(bucket, key)`, with
    /// the errors of a request about it.
    fn locate_upload(&self, bucket: &str, key: &str, upload_id: &str) -> (r: Result<(usize, usize), S3Error>)
        requires
            self.wf(),
        ensures
            !self@.buckets.contains(bucket@) ==> (r matches Err(S3Error::NoSuchBucket(m)) && m@ == bucket@),
            self@.buckets.contains(bucket@) && !self@.has_object(bucket@, key@) ==> (r matches Err(
                S3Error::NoSuchKey(m),
            ) && m@ == key@),
            self@.buckets.contains(bucket@) && self@.has_object(bucket@, key@) && !self@.has_upload_id(
                bucket@,
                key@,
                upload_id@,
            ) ==> (r matches Err(S3Error::NoSuchUpload(m)) && m@ == upload_id@),
            self@.buckets.contains(bucket@) && self@.has_object(bucket@, key@) && self@.has_upload_id(
                bucket@,
                key@,
                upload_id@,
            ) ==> (r matches Ok((i, u)) && self@.object_at(i as int, bucket@, key@) && self@.upload_at(
                u as int,
                bucket@,
                key@,
                upload_id@,
            )),
    {
        if !self.has_bucket(bucket) {
            return Err(S3Error::NoSuchBucket(bucket.to_owned()));
        }
        let i = match self.find_object(bucket, key) {
            Some(i) => i,
            None => return Err(S3Error::NoSuchKey(key.to_owned())),
        };
        match self.find_upload(bucket, key, upload_id) {
            Some(u) => Ok((i, u)),
            None => Err(S3Error::NoSuchUpload(upload_id.to_owned())),
        }
    }

    /// Adds a part, tagged `e_tag`, to upload `upload_id` of the object at
    /// `(bucket, key)`.
    pub fn upload_part(
        &mut self,
        bucket: &str,
        key: &str,
        body: Vec<u8>,
        part_number: i32,
        upload_id: &str,
        e_tag: &str,
    ) -> (r: Result<UploadPartOutput, S3Error>)
        requires
            old(self).wf(),
        ensures
            final(self).wf(),
            !old(self)@.buckets.contains(bucket@) ==> (r matches Err(S3Error::NoSuchBucket(m)) && m@ == bucket@
                && final(self)@ == old(self)@),
            old(self)@.buckets.contains(bucket@) && !old(self)@.has_object(bucket@, key@) ==> (r matches Err(
                S3Error::NoSuchKey(m),
            ) && m@ == key@ && final(self)@ == old(self)@),
            old(self)@.buckets.contains(bucket@) && old(self)@.has_object(bucket@, key@) && !old(
                self,
            )@.has_upload_id(bucket@, key@, upload_id@) ==> (r matches Err(S3Error::NoSuchUpload(m)) && m@
                == upload_id@ && final(self)@ == old(self)@),
            old(self)@.buckets.contains(bucket@) && old(self)@.has_object(bucket@, key@) && old(
                self,
            )@.has_upload_id(bucket@, key@, upload_id@) ==> (r matches Ok(out) && opt_chars(out.e_tag) == Some(
                e_tag@,
            ) && exists|u: int|
                old(self)@.upload_at(u, bucket@, key@, upload_id@) && final(self)@ == #[trigger] old(
                    self,
                )@.with_part(u, PartView { part_number, body: body@, e_tag: e_tag@ })),
    {
        let (_, u) = match self.locate_upload(bucket, key, upload_id) {
            Ok(p) => p,
            Err(e) => return Err(e),
        };
        let ghost v = self@;
        let ghost bv = body@;
        let mut up = self.uploads.remove(u);
        let ghost before_parts = up.parts@;
        up.parts.push(ObjectPart { part_number, body, e_tag: e_tag.to_owned() });
        self.uploads.insert(u, up);
        proof {
            let x = UploadView {
                parts: v.uploads[u as int].parts.push(PartView { part_number, body: bv, e_tag: e_tag@ }),
                ..v.uploads[u as int]
            };
            assert(upload_view(self.uploads@[u as int]).parts =~= x.parts);
            assert(self@.uploads =~= v.uploads.update(u as int, x));
            assert(self@.objects =~= v.objects);
            assert(self@.buckets =~= v.buckets);
            assert(self@.lifecycle =~= v.lifecycle);
            assert(self@ == v.with_part(u as int, PartView { part_number, body: bv, e_tag: e_tag@ }));
            assert forall|a: int, c: int|
                0 <= a < self@.uploads.len() && 0 <= c < self@.uploads.len() && a != c implies !(
                self@.uploads[a].bucket == self@.uploads[c].bucket && self@.uploads[a].key == self@.uploads[c].key
                    && self@.uploads[a].id == self@.uploads[c].id) by {
                assert(self@.uploads[a].id == v.uploads[a].id && self@.uploads[c].id == v.uploads[c].id);
            }
        }
        Ok(UploadPartOutput { e_tag: Some(e_tag.to_owned()) })
    }

    /// Completes upload `upload_id` of the object at `(bucket, key)`: with a
    /// part list, the object becomes complete with the body `assembled` says;
    /// without one, the upload is only dropped. Either way the upload ends.
    pub fn complete_multipart_upload(
        &mut self,
        bucket: &str,
        key: &str,
        multipart: CompletedMultipartUpload,
        upload_id: &str,
    ) -> (r: Result<CompleteMultipartUploadOutput, S3Error>)
        requires
            old(self).wf(),
        ensures
            final(self).wf(),
            !old(self)@.buckets.contains(bucket@) ==> (r matches Err(S3Error::NoSuchBucket(m)) && m@ == bucket@
                && final(self)@ == old(self)@),
            old(self)@.buckets.contains(bucket@) && !old(self)@.has_object(bucket@, key@) ==> (r matches Err(
                S3Error::NoSuchKey(m),
            ) && m@ == key@ && final(self)@ == old(self)@),
            old(self)@.buckets.contains(bucket@) && old(self)@.has_object(bucket@, key@) && !old(
                self,
            )@.has_upload_id(bucket@, key@, upload_id@) ==> (r matches Err(S3Error::NoSuchUpload(m)) && m@
                == upload_id@ && final(self)@ == old(self)@),
            old(self)@.buckets.contains(bucket@) && old(self)@.has_object(bucket@, key@) && old(
                self,
            )@.has_upload_id(bucket@, key@, upload_id@) ==> r is Ok && exists|i: int, u: int|
                #[trigger] old(self)@.object_at(i, bucket@, key@) && #[trigger] old(self)@.upload_at(u, bucket@, key@, upload_id@)
                    && final(self)@ == match multipart.parts {
                    Some(req) => S3View {
                        objects: old(self)@.objects.update(
                            i,
                            ObjectView {
                                body: assembled(
                                    old(self)@.uploads[u].parts,
                                    req@,
                                    old(self)@.uploads[u].parts.len() as int,
                                ),
                                completed: true,
                                ..old(self)@.objects[i]
                            },
                        ),
                        uploads: old(self)@.uploads.remove(u),
                        ..old(self)@
                    },
                    None => S3View { uploads: old(self)@.uploads.remove(u), ..old(self)@ },
                },
    {
        let (i, u) = match self.locate_upload(bucket, key, upload_id) {
            Ok(p) => p,
            Err(e) => return Err(e),
        };
        let ghost v = self@;
        match multipart.parts {
            Some(req) => {
                let body = assemble(&self.uploads[u].parts, &req);
                let ghost bv = body@;
                let o = self.objects.remove(i);
                self.objects.insert(i, StoredObject { body, completed: true, ..o });
                self.uploads.remove(u);
                proof {
                    let nv = ObjectView { body: bv, completed: true, ..v.objects[i as int] };
                    assert(self@.objects =~= v.objects.update(i as int, nv));
                    assert(self@.uploads =~= v.uploads.remove(u as int));
                    assert(self@.buckets =~= v.buckets);
                    assert(self@.lifecycle =~= v.lifecycle);
                    Self::lemma_remove_upload(v, u as int);
                    assert forall|a: int, c: int| 0 <= a < c < self@.objects.len() implies obj_lt(
                        #[trigger] self@.objects[a],
                        #[trigger] self@.objects[c],
                    ) by {
                        assert(obj_lt(v.objects[a], v.objects[c]));
                    }
                }
            },
            None => {
                self.uploads.remove(u);
                proof {
                    assert(self@.uploads =~= v.uploads.remove(u as int));
                    assert(self@.objects =~= v.objects);
                    assert(self@.buckets =~= v.buckets);
                    assert(self@.lifecycle =~= v.lifecycle);
                    Self::lemma_remove_upload(v, u as int);
                }
            },
        }
        Ok(CompleteMultipartUploadOutput {})
    }

    /// Abandons upload `upload_id` of the object at `(bucket, key)` and its
    /// parts.
    pub fn abort_multipart_upload(&mut self, bucket: &str, key: &str, upload_id: &str) -> (r: Result<
        AbortMultipartUploadOutput,
        S3Error,
    >)
        requires
            old(self).wf(),
        ensures
            final(self).wf(),
            !old(self)@.buckets.contains(bucket@) ==> (r matches Err(S3Error::NoSuchBucket(m)) && m@ == bucket@
                && final(self)@ == old(self)@),
            old(self)@.buckets.contains(bucket@) && !old(self)@.has_object(bucket@, key@) ==> (r matches Err(
                S3Error::NoSuchKey(m),
            ) && m@ == key@ && final(self)@ == old(self)@),
            old(self)@.buckets.contains(bucket@) && old(self)@.has_object(bucket@, key@) && !old(
                self,
            )@.has_upload_id(bucket@, key@, upload_id@) ==> (r matches Err(S3Error::NoSuchUpload(m)) && m@
                == upload_id@ && final(self)@ == old(self)@),
            old(self)@.buckets.contains(bucket@) && old(self)@.has_object(bucket@, key@) && old(
                self,
            )@.has_upload_id(bucket@, key@, upload_id@) ==> r is Ok && exists|u: int|
                #[trigger] old(self)@.upload_at(u, bucket@, key@, upload_id@) && final(self)@ == (S3View {
                    uploads: old(self)@.uploads.remove(u),
                    ..old(self)@
                }),
    {
        let (_, u) = match self.locate_upload(bucket, key, upload_id) {
            Ok(p) => p,
            Err(e) => return Err(e),
        };
        let ghost v = self@;
        self.uploads.remove(u);
        proof {
            assert(self@.uploads =~= v.uploads.remove(u as int));
            assert(self@.objects =~= v.objects);
            assert(self@.buckets =~= v.buckets);
            assert(self@.lifecycle =~= v.lifecycle);
            Self::lemma_remove_upload(v, u as int);
        }
        Ok(AbortMultipartUploadOutput {})
    }
}

/// The first of `parts` that `c` names.
fn find_first(parts: &Vec<ObjectPart>, c: &CompletedPart) -> (r: Option<usize>)
    ensures
        match r {
            Some(i) => first_match(parts_view(parts@), *c, i as int),
            None => forall|i: int|
                0 <= i < parts@.len() ==> !part_matches(
                    #[trigger] parts_view(parts@)[i],
                    *c,
                ),
        },
{
    let ghost pv = parts_view(parts@);
    let mut i: usize = 0;
    while i < parts.len()
        invariant
            i <= parts@.len(),
            pv == parts_view(parts@),
            forall|l: int| 0 <= l < i ==> !part_matches(#[trigger] pv[l], *c),
        decreases parts@.len() - i,
    {
        let p = &parts[i];
        let hit = p.part_number == c.part_number && match &c.e_tag {
            Some(t) => p.e_tag == *t,
            None => true,
        };
        assert(hit == part_matches(pv[i as int], *c));
        if hit {
            return Some(i);
        }
        i = i + 1;
    }
    None
}

/// The body that completing an upload with parts `parts` and part list `req`
/// assembles.
fn assemble(parts: &Vec<ObjectPart>, req: &Vec<CompletedPart>) -> (r: Vec<u8>)
    ensures
        r@ == assembled(parts_view(parts@), req@, parts@.len() as int),
{
    let ghost pv = parts_view(parts@);
    let n = parts.len();
    let mut selected: Vec<bool> = Vec::new();
    let mut k: usize = 0;
    while k < n
        invariant
            k <= n,
            n == parts@.len(),
            selected@.len() == k,
            forall|l: int| 0 <= l < k ==> !selected@[l],
        decreases n - k,
    {
        selected.push(false);
        k = k + 1;
    }
    let mut j: usize = 0;
    while j < req.len()
        invariant
            j <= req@.len(),
            n == parts@.len(),
            pv == parts_view(parts@),
            selected@.len() == n,
            forall|i: int|
                0 <= i < n ==> (selected@[i] <==> exists|l: int| 0 <= l < j && first_match(pv, #[trigger] req@[l], i)),
        decreases req@.len() - j,
    {
        let m = find_first(parts, &req[j]);
        let ghost old_sel = selected@;
        match m {
            Some(i) => {
                selected.set(i, true);
            },
            None => {},
        }
        proof {
            assert forall|i: int| 0 <= i < n implies (selected@[i] <==> exists|l: int|
                0 <= l < j + 1 && first_match(pv, #[trigger] req@[l], i)) by {
                if selected@[i] && !old_sel[i] {
                    assert(first_match(pv, req@[j as int], i));
                }
                if exists|l: int| 0 <= l < j + 1 && first_match(pv, #[trigger] req@[l], i) {
                    let l = choose|l: int| 0 <= l < j + 1 && first_match(pv, #[trigger] req@[l], i);
                    if l == j {
                        match m {
                            Some(x) => {
                                if x != i {
                                    if x < i {
                                        assert(!part_matches(pv[x as int], req@[l]));
                                    } else {
                                        assert(!part_matches(pv[i], req@[l]));
                                    }
                                }
                            },
                            None => {
                                assert(!part_matches(pv[i], req@[l]));
                            },
                        }
                    }
                }
            }
        }
        j = j + 1;
    }
    let mut body: Vec<u8> = Vec::new();
    let mut i: usize = 0;
    while i < n
        invariant
            i <= n,
            n == parts@.len(),
            pv == parts_view(parts@),
            selected@.len() == n,
            forall|x: int| 0 <= x < n ==> (selected@[x] <==> chosen(pv, req@, x)),
            body@ == assembled(pv, req@, i as int),
        decreases n - i,
    {
        if selected[i] {
            let part = &parts[i].body;
            let mut b: usize = 0;
            let ghost start = body@;
            while b < part.len()
                invariant
                    b <= part@.len(),
                    body@ == start + part@.subrange(0, b as int),
                decreases part@.len() - b,
            {
                body.push(part[b]);
                assert(body@ =~= start + part@.subrange(0, b + 1));
                b = b + 1;
            }
            assert(part@.subrange(0, part@.len() as int) =~= part@);
            assert(pv[i as int].body == part@);
        } else {
            assert(body@ =~= body@ + Seq::<u8>::empty());
        }
        i = i + 1;
    }
    body
}

/// A copy of bytes `a` to `b` (exclusive) of `v`.
fn copy_bytes(v: &Vec<u8>, a: usize, b: usize) -> (r: Vec<u8>)
    requires
        a <= b <= v@.len(),
    ensures
        r@ == v@.subrange(a as int, b as int),
{
    let mut out: Vec<u8> = Vec::new();
    let mut i: usize = a;
    while i < b
        invariant
            a <= i <= b,
            b <= v@.len(),
            out@ == v@.subrange(a as int, i as int),
        decreases b - i,
    {
        out.push(v[i]);
        assert(out@ =~= v@.subrange(a as int, i + 1));
        i = i + 1;
    }
    out
}

} // verus!
