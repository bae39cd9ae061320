//! Content-addressed storage of normalised snippet source.

use vstd::prelude::*;

verus! {

/// Offset basis of the 64-bit FNV-1a digest.
pub const DIGEST_OFFSET: u64 = 0xcbf29ce484222325;

/// Multiplier of the 64-bit FNV-1a digest.
pub const DIGEST_PRIME: u64 = 0x100000001b3;

/// One FNV-1a step: mix in a byte, then multiply modulo 2^64.
pub open spec fn digest_step(h: u64, b: u8) -> u64 {
    ((((h ^ (b as u64)) as nat) * (DIGEST_PRIME as nat)) % 0x1_0000_0000_0000_0000nat) as u64
}

/// The content hash of a byte sequence: FNV-1a over its bytes in order.
pub open spec fn content_hash(s: Seq<u8>) -> u64
    decreases s.len(),
{
    if s.len() == 0 {
        DIGEST_OFFSET
    } else {
        digest_step(content_hash(s.drop_last()), s.last())
    }
}

/// The bytes of `s` without carriage returns (CRLF becomes LF).
pub open spec fn drop_cr(s: Seq<u8>) -> Seq<u8>
    decreases s.len(),
{
    if s.len() == 0 {
        s
    } else if s.last() == 13u8 {
        drop_cr(s.drop_last())
    } else {
        drop_cr(s.drop_last()).push(s.last())
    }
}

pub open spec fn is_blank(b: u8) -> bool {
    b == 32u8 || b == 9u8 || b == 10u8
}

/// `s` without its trailing spaces, tabs and newlines.
pub open spec fn trim_end(s: Seq<u8>) -> Seq<u8>
    decreases s.len(),
{
    if s.len() > 0 && is_blank(s.last()) {
        trim_end(s.drop_last())
    } else {
        s
    }
}

/// The canonical form of source text: line endings as LF, no trailing blanks.
pub open spec fn normalized(s: Seq<u8>) -> Seq<u8> {
    trim_end(drop_cr(s))
}

proof fn lemma_drop_cr_has_no_cr(s: Seq<u8>)
    ensures
        forall|i: int| 0 <= i < drop_cr(s).len() ==> #[trigger] drop_cr(s)[i] != 13u8,
    decreases s.len(),
{
    if s.len() > 0 {
        lemma_drop_cr_has_no_cr(s.drop_last());
        let p = drop_cr(s.drop_last());
        if s.last() != 13u8 {
            assert forall|i: int| 0 <= i < drop_cr(s).len() implies #[trigger] drop_cr(s)[i]
                != 13u8 by {
                if i < p.len() {
                    assert(drop_cr(s)[i] == p[i]);
                }
            }
        }
    }
}

proof fn lemma_drop_cr_keeps_cr_free(s: Seq<u8>)
    requires
        forall|i: int| 0 <= i < s.len() ==> #[trigger] s[i] != 13u8,
    ensures
        drop_cr(s) == s,
    decreases s.len(),
{
    if s.len() > 0 {
        let p = s.drop_last();
        assert forall|i: int| 0 <= i < p.len() implies #[trigger] p[i] != 13u8 by {
            assert(p[i] == s[i]);
        }
        lemma_drop_cr_keeps_cr_free(p);
        assert(s.last() == s[s.len() - 1]);
        assert(p.push(s.last()) =~= s);
    }
}

proof fn lemma_trim_end_prefix(s: Seq<u8>)
    ensures
        trim_end(s).len() <= s.len(),
        trim_end(s) == s.subrange(0, trim_end(s).len() as int),
        trim_end(s).len() > 0 ==> !is_blank(trim_end(s).last()),
    decreases s.len(),
{
    if s.len() > 0 && is_blank(s.last()) {
        lemma_trim_end_prefix(s.drop_last());
        let t = trim_end(s.drop_last());
        assert(s.drop_last().subrange(0, t.len() as int) =~= s.subrange(0, t.len() as int));
    } else {
        assert(s.subrange(0, s.len() as int) =~= s);
    }
}

/// Normalising is idempotent: normalised text is its own canonical form.
pub proof fn lemma_normalize_idempotent(s: Seq<u8>)
    ensures
        normalized(normalized(s)) == normalized(s),
{
    let d = drop_cr(s);
    let t = trim_end(d);
    lemma_drop_cr_has_no_cr(s);
    lemma_trim_end_prefix(d);
    assert forall|i: int| 0 <= i < t.len() implies #[trigger] t[i] != 13u8 by {
        assert(t[i] == d.subrange(0, t.len() as int)[i]);
        assert(d[i] != 13u8);
    }
    lemma_drop_cr_keeps_cr_free(t);
}

/// Whether `a` and `b` hold the same bytes.
pub fn bytes_equal(a: &Vec<u8>, b: &Vec<u8>) -> (r: bool)
    ensures
        r == (a@ == b@),
{
    if a.len() != b.len() {
        return false;
    }
    let mut i: usize = 0;
    while i < a.len()
        invariant
            a.len() == b.len(),
            i <= a.len(),
            a@.subrange(0, i as int) == b@.subrange(0, i as int),
        decreases a.len() - i,
    {
        if a[i] != b[i] {
            assert(a@[i as int] != b@[i as int]);
            return false;
        }
        assert(a@.subrange(0, i + 1) == a@.subrange(0, i as int).push(a@[i as int]));
        assert(b@.subrange(0, i + 1) == b@.subrange(0, i as int).push(b@[i as int]));
        i = i + 1;
    }
    assert(a@ == a@.subrange(0, a.len() as int));
    assert(b@ == b@.subrange(0, b.len() as int));
    true
}

/// The content hash of `bytes`.
pub fn digest(bytes: &Vec<u8>) -> (h: u64)
    ensures
        h == content_hash(bytes@),
{
    let mut h: u64 = DIGEST_OFFSET;
    let mut i: usize = 0;
    while i < bytes.len()
        invariant
            i <= bytes.len(),
            h == content_hash(bytes@.subrange(0, i as int)),
        decreases bytes.len() - i,
    {
        let prefix = Ghost(bytes@.subrange(0, i + 1));
        assert(prefix@.drop_last() == bytes@.subrange(0, i as int));
        h = (h ^ (bytes[i] as u64)).wrapping_mul(DIGEST_PRIME);
        i = i + 1;
    }
    assert(bytes@ == bytes@.subrange(0, bytes.len() as int));
    h
}

/// The canonical form of `source`: carriage returns removed, trailing
/// spaces, tabs and newlines cut.
pub fn normalize(source: &Vec<u8>) -> (r: Vec<u8>)
    ensures
        r@ == normalized(source@),
{
    let mut out: Vec<u8> = Vec::new();
    let mut i: usize = 0;
    while i < source.len()
        invariant
            i <= source.len(),
            out@ == drop_cr(source@.subrange(0, i as int)),
        decreases source.len() - i,
    {
        let prefix = Ghost(source@.subrange(0, i + 1));
        assert(prefix@.drop_last() == source@.subrange(0, i as int));
        if source[i] != 13u8 {
            out.push(source[i]);
        }
        i = i + 1;
    }
    assert(source@ == source@.subrange(0, source.len() as int));
    strip_trailing_blanks(&mut out);
    out
}

/// Cuts the trailing spaces, tabs and newlines of `v`.
pub fn strip_trailing_blanks(v: &mut Vec<u8>)
    ensures
        final(v)@ == trim_end(old(v)@),
{
    while v.len() > 0 && (v[v.len() - 1] == 32u8 || v[v.len() - 1] == 9u8 || v[v.len() - 1]
        == 10u8)
        invariant
            trim_end(v@) == trim_end(old(v)@),
        decreases v.len(),
    {
        v.pop();
    }
}

/// Why a store was refused.
#[derive(Debug, Clone, Copy, PartialEq, Eq, Structural)]
pub enum StoreError {
    /// Other bytes are already stored under this hash.
    HashCollision { hash: u64 },
}

/// Whether the stored blobs have pairwise distinct hashes, so that a hash
/// names at most one blob.
pub open spec fn blobs_distinct(blobs: Seq<Seq<u8>>) -> bool {
    forall|i: int, j: int|
        0 <= i < blobs.len() && 0 <= j < blobs.len() && i != j ==> content_hash(
            #[trigger] blobs[i],
        ) != content_hash(#[trigger] blobs[j])
}

/// What storing `b` into `blobs` gives: the blobs afterwards and the result.
/// Present bytes are found again, new bytes are appended, and bytes whose
/// hash is taken by other bytes are refused.
pub open spec fn store_outcome(blobs: Seq<Seq<u8>>, b: Seq<u8>) -> (Seq<Seq<u8>>, Result<
    u64,
    StoreError,
>) {
    let h = content_hash(b);
    if blobs.contains(b) {
        (blobs, Ok(h))
    } else if exists|i: int| 0 <= i < blobs.len() && content_hash(#[trigger] blobs[i]) == h {
        (blobs, Err(StoreError::HashCollision { hash: h }))
    } else {
        (blobs.push(b), Ok(h))
    }
}

/// Storing bytes a second time returns the same hash and changes nothing.
pub proof fn lemma_store_idempotent(blobs: Seq<Seq<u8>>, b: Seq<u8>)
    requires
        blobs_distinct(blobs),
        store_outcome(blobs, b).1 is Ok,
    ensures
        store_outcome(store_outcome(blobs, b).0, b) == store_outcome(blobs, b),
        blobs_distinct(store_outcome(blobs, b).0),
{
    let after = store_outcome(blobs, b).0;
    if !blobs.contains(b) {
        assert(after[blobs.len() as int] == b);
        assert(after.contains(b));
        assert forall|i: int, j: int|
            0 <= i < after.len() && 0 <= j < after.len() && i != j implies content_hash(
                #[trigger] after[i],
            ) != content_hash(#[trigger] after[j]) by {
            if i < blobs.len() && j < blobs.len() {
                assert(after[i] == blobs[i] && after[j] == blobs[j]);
            } else if i < blobs.len() {
                assert(after[i] == blobs[i]);
            } else {
                assert(after[j] == blobs[j]);
            }
        }
    }
}

/// Source bytes kept under their content hash, each body once.
pub struct ContentStore {
    blobs: Vec<Vec<u8>>,
    hashes: Vec<u64>,
}

impl ContentStore {
    /// The stored bodies, in the order they were first stored.
    pub closed spec fn view(&self) -> Seq<Seq<u8>> {
        self.blobs@.map_values(|v: Vec<u8>| v@)
    }

    pub closed spec fn wf(&self) -> bool {
        &&& self.blobs.len() == self.hashes.len()
        &&& forall|i: int|
            0 <= i < self.hashes.len() ==> #[trigger] self.hashes@[i] == content_hash(
                self.blobs@[i]@,
            )
        &&& blobs_distinct(self@)
    }

    pub fn new() -> (s: ContentStore)
        ensures
            s.wf(),
            s@ == Seq::<Seq<u8>>::empty(),
    {
        let s = ContentStore { blobs: Vec::new(), hashes: Vec::new() };
        assert(s@ =~= Seq::<Seq<u8>>::empty());
        s
    }

    /// The number of stored bodies.
    pub fn len(&self) -> (n: usize)
        ensures
            n == self@.len(),
    {
        self.blobs.len()
    }

    fn find_hash(&self, h: u64) -> (r: Option<usize>)
        requires
            self.wf(),
        ensures
            match r {
                Some(i) => i < self@.len() && content_hash(self@[i as int]) == h,
                None => forall|i: int| 0 <= i < self@.len() ==> content_hash(#[trigger] self@[i]) != h,
            },
    {
        let mut i: usize = 0;
        while i < self.hashes.len()
            invariant
                self.wf(),
                i <= self.hashes.len(),
                forall|k: int| 0 <= k < i ==> content_hash(#[trigger] self@[k]) != h,
            decreases self.hashes.len() - i,
        {
            assert(self@[i as int] == self.blobs@[i as int]@);
            if self.hashes[i] == h {
                return Some(i);
            }
            i = i + 1;
        }
        None
    }

    /// Stores `bytes` and returns their content hash; bytes already present
    /// are not stored again.
    pub fn store(&mut self, bytes: &Vec<u8>) -> (r: Result<u64, StoreError>)
        requires
            old(self).wf(),
        ensures
            final(self).wf(),
            (final(self)@, r) == store_outcome(old(self)@, bytes@),
            r is Err ==> *final(self) == *old(self),
    {
        let h = digest(bytes);
        match self.find_hash(h) {
            Some(i) => {
                let same = bytes_equal(&self.blobs[i], bytes);
                assert(self@[i as int] == self.blobs@[i as int]@);
                if same {
                    assert(self@.contains(bytes@));
                    Ok(h)
                } else {
                    assert(!self@.contains(bytes@)) by {
                        if self@.contains(bytes@) {
                            let k = choose|k: int| 0 <= k < self@.len() && self@[k] == bytes@;
                            assert(content_hash(self@[k]) == content_hash(self@[i as int]));
                        }
                    }
                    Err(StoreError::HashCollision { hash: h })
                }
            },
            None => {
                proof {
                    if self@.contains(bytes@) {
                        let k = choose|k: int| 0 <= k < self@.len() && self@[k] == bytes@;
                        assert(content_hash(self@[k]) != h);
                    }
                    lemma_store_idempotent(self@, bytes@);
                }
                let ghost before = self@;
                let copy = bytes.clone();
                assert(copy@ == bytes@);
                self.blobs.push(copy);
                self.hashes.push(h);
                assert(self@ =~= before.push(bytes@));
                assert forall|k: int| 0 <= k < self.hashes.len() implies #[trigger] self.hashes@[k]
                    == content_hash(self.blobs@[k]@) by {
                    if k < before.len() {
                        assert(before[k] == self.blobs@[k]@);
                    }
                }
                Ok(h)
            },
        }
    }

    /// The bytes stored under `h`, if any.
    pub fn fetch(&self, h: u64) -> (r: Option<Vec<u8>>)
        requires
            self.wf(),
        ensures
            match r {
                Some(v) => self@.contains(v@) && content_hash(v@) == h,
                None => forall|i: int| 0 <= i < self@.len() ==> content_hash(#[trigger] self@[i]) != h,
            },
    {
        match self.find_hash(h) {
            Some(i) => {
                let v = self.blobs[i].clone();
                assert(v@ == self.blobs@[i as int]@);
                assert(self@[i as int] == v@);
                Some(v)
            },
            None => None,
        }
    }
}

} // verus!
