use vstd::prelude::*;

use crate::bytes::extend_bytes;
use crate::chunk::{
    is_consistent, lemma_chunk_bytes_of_parse, lemma_parse_chunk_bytes, spec_chunk_bytes,
    spec_parse_chunk, Chunk, ChunkModel,
};
use crate::chunk_type::lemma_chunk_type_len;
use crate::error::PngError;
use vstd::string::StringSliceAdditionalSpecFns;

verus! {

broadcast use lemma_chunk_type_len;

/// What a PNG file holds, as mathematical values.
pub struct PngModel {
    /// The eight signature bytes.
    pub header: Seq<u8>,
    /// The chunks in file order.
    pub chunks: Seq<ChunkModel>,
}

/// A PNG file: the signature followed by a list of chunks.
#[derive(Debug)]
pub struct Png {
    header: [u8; 8],
    chunks: Vec<Chunk>,
}

impl View for Png {
    type V = PngModel;

    closed spec fn view(&self) -> PngModel {
        PngModel { header: self.header@, chunks: self.chunks@.map_values(|c: Chunk| c@) }
    }
}

/// The eight bytes that every PNG file starts with.
pub open spec fn spec_standard_header() -> Seq<u8> {
    seq![137u8, 80u8, 78u8, 71u8, 13u8, 10u8, 26u8, 10u8]
}

/// The chunks that `Png::try_from` reads from `s`, the bytes after the
/// signature: chunk after chunk until fewer than four bytes remain.
pub open spec fn spec_parse_chunks(s: Seq<u8>) -> Result<Seq<ChunkModel>, PngError>
    decreases s.len(),
{
    if s.len() < 4 {
        Ok(Seq::empty())
    } else {
        match spec_parse_chunk(s) {
            Err(e) => Err(e),
            Ok(c) => {
                if s.len() < 12 + c.length {
                    // never: a chunk that was read fits in `s`
                    Err(PngError::UnexpectedEof)
                } else {
                    match spec_parse_chunks(s.subrange(12 + c.length, s.len() as int)) {
                        Err(e) => Err(e),
                        Ok(rest) => Ok(seq![c] + rest),
                    }
                }
            },
        }
    }
}

/// What `Png::try_from` gives for the bytes `s`.
pub open spec fn spec_parse_png(s: Seq<u8>) -> Result<PngModel, PngError> {
    if s.len() < 8 {
        Err(PngError::UnexpectedEof)
    } else if s.subrange(0, 8) != spec_standard_header() {
        Err(PngError::InvalidHeader)
    } else {
        match spec_parse_chunks(s.subrange(8, s.len() as int)) {
            Err(e) => Err(e),
            Ok(chunks) => Ok(PngModel { header: s.subrange(0, 8), chunks: chunks }),
        }
    }
}

/// The bytes of the chunks `cs`, one after the other.
pub open spec fn spec_chunks_bytes(cs: Seq<ChunkModel>) -> Seq<u8>
    decreases cs.len(),
{
    if cs.len() == 0 {
        Seq::empty()
    } else {
        spec_chunk_bytes(cs[0]) + spec_chunks_bytes(cs.drop_first())
    }
}

/// The bytes of a PNG file: the signature, then the bytes of each chunk.
pub open spec fn spec_png_bytes(p: PngModel) -> Seq<u8> {
    p.header + spec_chunks_bytes(p.chunks)
}

/// Appending a chunk appends its bytes.
pub proof fn lemma_chunks_bytes_push(cs: Seq<ChunkModel>, c: ChunkModel)
    ensures
        spec_chunks_bytes(cs.push(c)) == spec_chunks_bytes(cs) + spec_chunk_bytes(c),
    decreases cs.len(),
{
    if cs.len() == 0 {
        assert(cs.push(c).drop_first() =~= Seq::<ChunkModel>::empty());
        assert(cs.push(c)[0] == c);
        let e = Seq::<ChunkModel>::empty();
        assert(spec_chunks_bytes(e) == Seq::<u8>::empty());
        assert(spec_chunks_bytes(cs) == Seq::<u8>::empty());
        assert(spec_chunks_bytes(cs.push(c)) == spec_chunk_bytes(c) + spec_chunks_bytes(e));
        assert(spec_chunks_bytes(cs.push(c)) =~= spec_chunks_bytes(cs) + spec_chunk_bytes(c));
    } else {
        lemma_chunks_bytes_push(cs.drop_first(), c);
        assert(cs.push(c).drop_first() =~= cs.drop_first().push(c));
        assert(cs.push(c)[0] == cs[0]);
        let a = spec_chunk_bytes(cs[0]);
        let b = spec_chunks_bytes(cs.drop_first());
        let d = spec_chunk_bytes(c);
        assert(spec_chunks_bytes(cs.push(c)) == a + (b + d));
        assert(spec_chunks_bytes(cs) == a + b);
        assert(a + (b + d) =~= (a + b) + d);
    }
}

/// Every chunk in `cs` is consistent.
pub open spec fn all_consistent(cs: Seq<ChunkModel>) -> bool {
    forall|i: int| 0 <= i < cs.len() ==> #[trigger] is_consistent(cs[i])
}

/// One step of reading chunks: a chunk read from the start of `s`, then the
/// chunks read from the bytes after it.
proof fn lemma_parse_chunks_step(s: Seq<u8>, c: ChunkModel)
    requires
        s.len() >= 4,
        spec_parse_chunk(s) == Ok::<ChunkModel, PngError>(c),
        s.len() >= 12 + c.length,
    ensures
        spec_parse_chunks(s) == spec_prepend(
            seq![c],
            spec_parse_chunks(s.subrange(12 + c.length, s.len() as int)),
        ),
{
}

/// The chunks after the first of consistent chunks are consistent.
proof fn lemma_all_consistent_drop_first(cs: Seq<ChunkModel>)
    requires
        all_consistent(cs),
        cs.len() > 0,
    ensures
        all_consistent(cs.drop_first()),
        is_consistent(cs[0]),
{
    let tail = cs.drop_first();
    assert forall|i: int| 0 <= i < tail.len() implies #[trigger] is_consistent(tail[i]) by {
        assert(tail[i] == cs[i + 1]);
    }
}

/// Reading the bytes of consistent chunks, followed by fewer than four other
/// bytes, gives the chunks back.
pub proof fn lemma_parse_chunks_bytes(cs: Seq<ChunkModel>, rest: Seq<u8>)
    requires
        all_consistent(cs),
        rest.len() < 4,
    ensures
        spec_parse_chunks(spec_chunks_bytes(cs) + rest) == Ok::<Seq<ChunkModel>, PngError>(cs),
    decreases cs.len(),
{
    if cs.len() == 0 {
        assert(spec_chunks_bytes(cs) + rest =~= rest);
        assert(cs =~= Seq::<ChunkModel>::empty());
    } else {
        let c = cs[0];
        let tail = cs.drop_first();
        lemma_all_consistent_drop_first(cs);
        lemma_parse_chunks_bytes(tail, rest);
        let after = spec_chunks_bytes(tail) + rest;
        let s = spec_chunks_bytes(cs) + rest;
        let head = spec_chunk_bytes(c);
        assert(s =~= head + after);
        lemma_parse_chunk_bytes(c, after);
        assert(s.subrange(12 + c.length, s.len() as int) =~= after);
        lemma_parse_chunks_step(s, c);
        assert(spec_parse_chunks(after) == Ok::<Seq<ChunkModel>, PngError>(tail));
        assert(spec_parse_chunks(s) == Ok::<Seq<ChunkModel>, PngError>(seq![c] + tail));
        assert(seq![c] + tail =~= cs);
    }
}

/// The chunks read from `s` are consistent, and `s` is their bytes followed
/// by fewer than four other bytes.
pub proof fn lemma_chunks_bytes_of_parse(s: Seq<u8>)
    requires
        spec_parse_chunks(s) is Ok,
    ensures
        ({
            let cs = spec_parse_chunks(s)->Ok_0;
            let n = spec_chunks_bytes(cs).len();
            &&& all_consistent(cs)
            &&& n <= s.len() < n + 4
            &&& s.subrange(0, n as int) == spec_chunks_bytes(cs)
        }),
    decreases s.len(),
{
    let cs = spec_parse_chunks(s)->Ok_0;
    if s.len() < 4 {
        assert(s.subrange(0, 0) =~= spec_chunks_bytes(cs));
    } else {
        lemma_chunk_bytes_of_parse(s);
        let c = spec_parse_chunk(s)->Ok_0;
        let k = 12 + c.length;
        let after = s.subrange(k, s.len() as int);
        lemma_chunks_bytes_of_parse(after);
        let tail = spec_parse_chunks(after)->Ok_0;
        assert(cs == seq![c] + tail);
        assert(cs[0] == c);
        assert(cs.drop_first() =~= tail);
        assert(all_consistent(cs)) by {
            assert forall|i: int| 0 <= i < cs.len() implies #[trigger] is_consistent(cs[i]) by {
                if i > 0 {
                    assert(cs[i] == tail[i - 1]);
                }
            }
        }
        let n = spec_chunks_bytes(cs).len();
        assert(spec_chunks_bytes(cs) == spec_chunk_bytes(c) + spec_chunks_bytes(tail));
        assert(s.subrange(0, n as int) =~= spec_chunks_bytes(cs));
    }
}

/// Joins a first chunk to what the rest of the input gives.
pub open spec fn spec_prepend(done: Seq<ChunkModel>, rest: Result<Seq<ChunkModel>, PngError>) -> Result<
    Seq<ChunkModel>,
    PngError,
> {
    match rest {
        Ok(cs) => Ok(done + cs),
        Err(e) => Err(e),
    }
}

/// `i` is the index of the first chunk in `cs` whose type is `t`.
pub open spec fn is_first_of_type(cs: Seq<ChunkModel>, t: Seq<u8>, i: int) -> bool {
    &&& 0 <= i < cs.len()
    &&& cs[i].chunk_type == t
    &&& forall|j: int| 0 <= j < i ==> #[trigger] cs[j].chunk_type != t
}

/// Some chunk in `cs` has the type `t`.
pub open spec fn has_chunk_of_type(cs: Seq<ChunkModel>, t: Seq<u8>) -> bool {
    exists|i: int| 0 <= i < cs.len() && #[trigger] cs[i].chunk_type == t
}

/// The type code of the chunk that ends a PNG file (`IEND`).
pub open spec fn spec_end_type() -> Seq<u8> {
    seq![73u8, 69u8, 78u8, 68u8]
}

/// The last of the chunks `cs` is the end chunk.
pub open spec fn ends_with_end_chunk(cs: Seq<ChunkModel>) -> bool {
    cs.len() > 0 && cs.last().chunk_type == spec_end_type()
}

/// Where a new chunk goes: just before the end chunk when the chunks end with
/// one, after the last chunk otherwise.
pub open spec fn spec_insert_index(cs: Seq<ChunkModel>) -> int {
    if ends_with_end_chunk(cs) {
        cs.len() - 1
    } else {
        cs.len() as int
    }
}

/// The chunks `cs` with `c` placed where a new chunk goes.
pub open spec fn spec_insert_before_end(cs: Seq<ChunkModel>, c: ChunkModel) -> Seq<ChunkModel> {
    cs.insert(spec_insert_index(cs), c)
}

/// Placing a chunk before the end keeps the end chunk last, keeps the other
/// chunks in their order around the new one, and removing the new one gives
/// the chunks back.
pub proof fn lemma_insert_before_end(cs: Seq<ChunkModel>, c: ChunkModel)
    ensures
        ({
            let k = spec_insert_index(cs);
            let ds = spec_insert_before_end(cs, c);
            &&& 0 <= k <= cs.len()
            &&& ds.len() == cs.len() + 1
            &&& ds[k] == c
            &&& forall|j: int| 0 <= j < k ==> #[trigger] ds[j] == cs[j]
            &&& forall|j: int| k < j < ds.len() ==> #[trigger] ds[j] == cs[j - 1]
            &&& ds.remove(k) == cs
            &&& ends_with_end_chunk(cs) ==> ends_with_end_chunk(ds) && ds.last() == cs.last()
        }),
{
    let k = spec_insert_index(cs);
    let ds = spec_insert_before_end(cs, c);
    assert(ds.remove(k) =~= cs);
}

/// Removing the first chunk of a type right after appending a chunk of that
/// type, to chunks that held none, removes the appended chunk and gives the
/// chunks back as they were.
pub proof fn lemma_remove_after_append(cs: Seq<ChunkModel>, c: ChunkModel)
    requires
        !has_chunk_of_type(cs, c.chunk_type),
    ensures
        has_chunk_of_type(cs.push(c), c.chunk_type),
        is_first_of_type(cs.push(c), c.chunk_type, cs.len() as int),
        cs.push(c)[cs.len() as int] == c,
        cs.push(c).remove(cs.len() as int) == cs,
{
    let n = cs.len() as int;
    let ds = cs.push(c);
    assert forall|j: int| 0 <= j < n implies #[trigger] ds[j].chunk_type != c.chunk_type by {
        assert(ds[j] == cs[j]);
    }
    assert(ds[n].chunk_type == c.chunk_type);
    assert(ds.remove(n) =~= cs);
}

/// Reading the bytes of a PNG file with the standard signature and consistent
/// chunks gives that file back.
pub proof fn lemma_parse_png_bytes(p: PngModel)
    requires
        p.header == spec_standard_header(),
        all_consistent(p.chunks),
    ensures
        spec_parse_png(spec_png_bytes(p)) == Ok::<PngModel, PngError>(p),
{
    let s = spec_png_bytes(p);
    lemma_parse_chunks_bytes(p.chunks, Seq::empty());
    assert(spec_chunks_bytes(p.chunks) + Seq::<u8>::empty() =~= spec_chunks_bytes(p.chunks));
    assert(s.subrange(0, 8) =~= p.header);
    assert(s.subrange(8, s.len() as int) =~= spec_chunks_bytes(p.chunks));
}

/// A file that was read has the standard signature and consistent chunks, and
/// writing it back gives the bytes it was read from, but for the fewer than
/// four trailing bytes that reading skips.
pub proof fn lemma_png_bytes_of_parse(s: Seq<u8>)
    requires
        spec_parse_png(s) is Ok,
    ensures
        ({
            let p = spec_parse_png(s)->Ok_0;
            let n = spec_png_bytes(p).len();
            &&& p.header == spec_standard_header()
            &&& all_consistent(p.chunks)
            &&& n <= s.len() < n + 4
            &&& s.subrange(0, n as int) == spec_png_bytes(p)
        }),
{
    let p = spec_parse_png(s)->Ok_0;
    let body = s.subrange(8, s.len() as int);
    lemma_chunks_bytes_of_parse(body);
    let n = spec_png_bytes(p).len();
    assert(s.subrange(0, n as int) =~= spec_png_bytes(p));
}

impl Png {
    /// The eight bytes that every PNG file starts with.
    pub const STANDARD_HEADER: [u8; 8] = [137, 80, 78, 71, 13, 10, 26, 10];

    /// A PNG file with the standard signature and the chunks given.
    pub fn from_chunks(chunks: Vec<Chunk>) -> (r: Png)
        ensures
            r@.header == spec_standard_header(),
            r@.chunks == chunks@.map_values(|c: Chunk| c@),
    {
        let r = Png { header: Self::STANDARD_HEADER, chunks };
        assert(r.header@ =~= spec_standard_header());
        r
    }

    /// Adds `chunk` after the last chunk.
    pub fn append_chunk(&mut self, chunk: Chunk)
        ensures
            final(self)@.header == old(self)@.header,
            final(self)@.chunks == old(self)@.chunks.push(chunk@),
    {
        self.chunks.push(chunk);
        assert(self.chunks@.map_values(|c: Chunk| c@) =~= old(self)@.chunks.push(chunk@));
    }

    /// Places `chunk` just before the last chunk when that is the end chunk
    /// (`IEND`), so that the end chunk stays last; after the last chunk
    /// otherwise.
    pub fn insert_before_end(&mut self, chunk: Chunk)
        ensures
            final(self)@.header == old(self)@.header,
            final(self)@.chunks == spec_insert_before_end(old(self)@.chunks, chunk@),
    {
        let n = self.chunks.len();
        let ghost models = old(self)@.chunks;
        let end_type: [u8; 4] = [73, 69, 78, 68];
        let mut index = n;
        if n > 0 {
            let last = self.chunks[n - 1].chunk_type().bytes();
            assert(models.last() == self.chunks@[n - 1]@);
            if bytes_equal(&end_type, &last) {
                assert(end_type@ =~= spec_end_type());
                index = n - 1;
            } else {
                assert(end_type@ =~= spec_end_type());
            }
        }
        self.chunks.insert(index, chunk);
        assert(self.chunks@.map_values(|c: Chunk| c@) =~= models.insert(index as int, chunk@));
    }

    /// Removes and returns the first chunk whose type bytes are the bytes of
    /// `chunk_type`; refuses when there is none and leaves the file unchanged.
    pub fn remove_first_chunk(&mut self, chunk_type: &str) -> (r: Result<Chunk, PngError>)
        ensures
            final(self)@.header == old(self)@.header,
            r matches Ok(c) ==> exists|i: int|
                #[trigger] is_first_of_type(old(self)@.chunks, chunk_type.spec_bytes(), i) && c@ == old(
                    self,
                )@.chunks[i] && final(self)@.chunks == old(self)@.chunks.remove(i),
            r matches Err(e) ==> e == PngError::ChunkNotFound && !has_chunk_of_type(
                old(self)@.chunks,
                chunk_type.spec_bytes(),
            ) && final(self)@ == old(self)@,
            r is Ok <==> has_chunk_of_type(old(self)@.chunks, chunk_type.spec_bytes()),
    {
        let wanted = chunk_type.as_bytes();
        let ghost models = old(self)@.chunks;
        let mut i: usize = 0;
        while i < self.chunks.len()
            invariant
                i <= self.chunks@.len(),
                self@ == old(self)@,
                models == self.chunks@.map_values(|c: Chunk| c@),
                wanted@ == chunk_type.spec_bytes(),
                forall|j: int| 0 <= j < i ==> #[trigger] models[j].chunk_type != wanted@,
            decreases self.chunks@.len() - i,
        {
            let t = self.chunks[i].chunk_type().bytes();
            if bytes_equal(&t, wanted) {
                assert(models[i as int] == self.chunks@[i as int]@);
                let removed = self.chunks.remove(i);
                assert(self.chunks@.map_values(|c: Chunk| c@) =~= models.remove(i as int));
                assert(is_first_of_type(old(self)@.chunks, chunk_type.spec_bytes(), i as int));
                assert(removed@ == old(self)@.chunks[i as int]);
                assert(self@.chunks == models.remove(i as int));
                assert(has_chunk_of_type(models, wanted@));
                return Ok(removed);
            }
            i = i + 1;
        }
        Err(PngError::ChunkNotFound)
    }

    /// The signature bytes.
    pub fn header(&self) -> (r: &[u8; 8])
        ensures
            r@ == self@.header,
    {
        &self.header
    }

    /// The chunks in file order.
    pub fn chunks(&self) -> (r: &[Chunk])
        ensures
            r@.map_values(|c: Chunk| c@) == self@.chunks,
    {
        self.chunks.as_slice()
    }

    /// The bytes of the file: the signature, then each chunk.
    pub fn as_bytes(&self) -> (r: Vec<u8>)
        ensures
            r@ == spec_png_bytes(self@),
    {
        let mut r: Vec<u8> = Vec::new();
        let mut i: usize = 0;
        while i < 8
            invariant
                i <= 8,
                r@ =~= self.header@.subrange(0, i as int),
            decreases 8 - i,
        {
            r.push(self.header[i]);
            i = i + 1;
        }
        let ghost models = self@.chunks;
        let mut k: usize = 0;
        while k < self.chunks.len()
            invariant
                k <= self.chunks@.len(),
                models == self.chunks@.map_values(|c: Chunk| c@),
                r@ == self.header@ + spec_chunks_bytes(models.subrange(0, k as int)),
            decreases self.chunks@.len() - k,
        {
            let bytes = self.chunks[k].as_bytes();
            extend_bytes(&mut r, bytes.as_slice());
            proof {
                lemma_chunks_bytes_push(models.subrange(0, k as int), models[k as int]);
                assert(models.subrange(0, k as int).push(models[k as int]) =~= models.subrange(
                    0,
                    k + 1,
                ));
            }
            k = k + 1;
        }
        assert(models.subrange(0, models.len() as int) =~= models);
        r
    }

    /// Reads a PNG file: the signature, then chunks until fewer than four
    /// bytes remain.
    pub fn try_from(value: &[u8]) -> (r: Result<Png, PngError>)
        ensures
            r matches Ok(p) ==> spec_parse_png(value@) == Ok::<PngModel, PngError>(p@),
            r matches Err(e) ==> spec_parse_png(value@) == Err::<PngModel, PngError>(e),
    {
        if value.len() < 8 {
            return Err(PngError::UnexpectedEof);
        }
        let header: [u8; 8] = [
            value[0],
            value[1],
            value[2],
            value[3],
            value[4],
            value[5],
            value[6],
            value[7],
        ];
        assert(header@ =~= value@.subrange(0, 8));
        let standard = Self::STANDARD_HEADER;
        assert(standard@ =~= spec_standard_header());
        let mut i: usize = 0;
        while i < 8
            invariant
                i <= 8,
                value@.len() >= 8,
                header@ == value@.subrange(0, 8),
                standard@ == spec_standard_header(),
                forall|j: int| 0 <= j < i ==> header@[j] == standard@[j],
            decreases 8 - i,
        {
            if header[i] != standard[i] {
                assert(header@ != standard@);
                return Err(PngError::InvalidHeader);
            }
            i = i + 1;
        }
        assert(header@ =~= standard@);
        let ghost whole = value@.subrange(8, value@.len() as int);
        let mut chunks: Vec<Chunk> = Vec::new();
        let mut pos: usize = 8;
        loop
            invariant
                8 <= pos <= value@.len(),
                value@.subrange(0, 8) == spec_standard_header(),
                whole == value@.subrange(8, value@.len() as int),
                spec_parse_chunks(whole) == spec_prepend(
                    chunks@.map_values(|c: Chunk| c@),
                    spec_parse_chunks(value@.subrange(pos as int, value@.len() as int)),
                ),
            ensures
                spec_parse_chunks(whole) == Ok::<Seq<ChunkModel>, PngError>(
                    chunks@.map_values(|c: Chunk| c@),
                ),
            decreases value@.len() - pos,
        {
            let ghost rest = value@.subrange(pos as int, value@.len() as int);
            let ghost done = chunks@.map_values(|c: Chunk| c@);
            if value.len() - pos < 4 {
                assert(done + Seq::<ChunkModel>::empty() =~= done);
                break;
            }
            let chunk = match Chunk::try_from(&value[pos..value.len()]) {
                Ok(c) => c,
                Err(e) => {
                    assert(spec_parse_chunks(rest) == Err::<Seq<ChunkModel>, PngError>(e));
                    return Err(e);
                },
            };
            let ghost c = chunk@;
            proof {
                lemma_chunk_bytes_of_parse(rest);
            }
            let next = pos + 12 + chunk.length() as usize;
            let ghost tail = value@.subrange(next as int, value@.len() as int);
            assert(rest.subrange(12 + c.length, rest.len() as int) =~= tail);
            chunks.push(chunk);
            assert(chunks@.map_values(|c: Chunk| c@) =~= done.push(c));
            proof {
                if let Ok(more) = spec_parse_chunks(tail) {
                    assert(done + (seq![c] + more) =~= done.push(c) + more);
                }
            }
            pos = next;
        }
        let p = Png { header, chunks };
        assert(value@.subrange(0, 8) == header@);
        Ok(p)
    }
}

/// The contract of this conversion is that of the inherent `Png::try_from`,
/// which it calls; the trait carries none of its own.
impl<'a> vstd::std_specs::convert::TryFromSpecImpl<&'a [u8]> for Png {
    open spec fn obeys_try_from_spec() -> bool {
        false
    }

    closed spec fn try_from_spec(value: &'a [u8]) -> Result<Png, PngError> {
        arbitrary()
    }
}

impl<'a> TryFrom<&'a [u8]> for Png {
    type Error = PngError;

    fn try_from(value: &'a [u8]) -> (r: Result<Png, PngError>)
        ensures
            r matches Ok(x) ==> spec_parse_png(value@) == Ok::<PngModel, PngError>(x@),
            r matches Err(e) ==> spec_parse_png(value@) == Err::<PngModel, PngError>(e),
    {
        Png::try_from(value)
    }
}

/// Tells whether the four bytes of `t` are exactly the bytes of `wanted`.
pub(crate) fn bytes_equal(t: &[u8; 4], wanted: &[u8]) -> (r: bool)
    ensures
        r == (t@ == wanted@),
{
    if wanted.len() != 4 {
        return false;
    }
    let mut i: usize = 0;
    while i < 4
        invariant
            i <= 4,
            wanted@.len() == 4,
            forall|j: int| 0 <= j < i ==> t@[j] == wanted@[j],
        decreases 4 - i,
    {
        if t[i] != wanted[i] {
            return false;
        }
        i = i + 1;
    }
    assert(t@ =~= wanted@);
    true
}

} // verus!
