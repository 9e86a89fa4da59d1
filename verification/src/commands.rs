use vstd::prelude::*;

use crate::bytes::bytes_to_vec;
use crate::chunk::{
    lemma_new_chunk_consistent, spec_chunk_text, spec_data_text, spec_new_chunk, Chunk, ChunkModel,
};
use crate::chunk_type::{bit5_set, lemma_chunk_type_len, spec_chunk_type_from_bytes, ChunkType};
use crate::error::PngError;
use crate::png::{
    all_consistent, bytes_equal, ends_with_end_chunk, lemma_insert_before_end,
    spec_insert_before_end, spec_insert_index, has_chunk_of_type, is_first_of_type, lemma_parse_png_bytes,
    lemma_png_bytes_of_parse, spec_parse_png, spec_png_bytes, Png, PngModel,
};
use crate::text::{decimal_text, push_decimal, push_str};
use vstd::string::StringSliceAdditionalSpecFns;
use vstd::utf8::{
    decode_utf8, encode_utf8, encode_utf8_decode_utf8, encode_utf8_valid_utf8, valid_utf8,
};

verus! {

broadcast use lemma_chunk_type_len;

/// The index of the first chunk in `cs` whose type is `t`, when there is one.
pub open spec fn spec_first_of_type(cs: Seq<ChunkModel>, t: Seq<u8>) -> int {
    choose|i: int| is_first_of_type(cs, t, i)
}

/// There is at most one first chunk of a type.
pub proof fn lemma_first_of_type_unique(cs: Seq<ChunkModel>, t: Seq<u8>, i: int, j: int)
    requires
        is_first_of_type(cs, t, i),
        is_first_of_type(cs, t, j),
    ensures
        i == j,
{
    if i < j {
        assert(cs[i].chunk_type != t);
    } else if j < i {
        assert(cs[j].chunk_type != t);
    }
}

/// When some chunk has the type `t`, there is a first one.
pub proof fn lemma_first_of_type_exists(cs: Seq<ChunkModel>, t: Seq<u8>)
    requires
        has_chunk_of_type(cs, t),
    ensures
        is_first_of_type(cs, t, spec_first_of_type(cs, t)),
    decreases cs.len(),
{
    if cs[0].chunk_type == t {
        assert(is_first_of_type(cs, t, 0));
    } else {
        let k = choose|k: int| 0 <= k < cs.len() && #[trigger] cs[k].chunk_type == t;
        let tail = cs.drop_first();
        assert(tail[k - 1].chunk_type == t);
        lemma_first_of_type_exists(tail, t);
        let i = spec_first_of_type(tail, t);
        assert(is_first_of_type(cs, t, i + 1)) by {
            assert forall|j: int| 0 <= j < i + 1 implies #[trigger] cs[j].chunk_type != t by {
                if j > 0 {
                    assert(cs[j] == tail[j - 1]);
                }
            }
        }
    }
}

/// What encoding `message` (given by its UTF-8 bytes) under the chunk type
/// written as `chunk_type` (given by its UTF-8 bytes) does to the file `file`:
/// the file is read, a chunk of that type holding the message is placed just
/// before its end chunk (after its last chunk when that is not an end chunk),
/// and the file is written out again.
pub open spec fn spec_encode(file: Seq<u8>, chunk_type: Seq<u8>, message: Seq<u8>) -> Result<
    Seq<u8>,
    PngError,
> {
    match spec_parse_png(file) {
        Err(e) => Err(e),
        Ok(p) => match spec_chunk_type_from_bytes(chunk_type) {
            Err(e) => Err(e),
            Ok(t) => if !bit5_set(t[3]) {
                Err(PngError::NotSafeToCopy)
            } else {
                Ok(
                    spec_png_bytes(
                        PngModel {
                            header: p.header,
                            chunks: spec_insert_before_end(p.chunks, spec_new_chunk(t, message)),
                        },
                    ),
                )
            },
        },
    }
}

/// What decoding the message of the chunk type written as `chunk_type` from
/// the file `file` gives: the data of the first chunk of that type, as text.
pub open spec fn spec_decode(file: Seq<u8>, chunk_type: Seq<u8>) -> Result<Seq<char>, PngError> {
    match spec_parse_png(file) {
        Err(e) => Err(e),
        Ok(p) => if has_chunk_of_type(p.chunks, chunk_type) {
            spec_data_text(p.chunks[spec_first_of_type(p.chunks, chunk_type)])
        } else {
            Err(PngError::ChunkNotFound)
        },
    }
}

/// What removing the message of the chunk type written as `chunk_type` from
/// the file `file` gives: the file without the first chunk of that type.
pub open spec fn spec_remove(file: Seq<u8>, chunk_type: Seq<u8>) -> Result<Seq<u8>, PngError> {
    match spec_parse_png(file) {
        Err(e) => Err(e),
        Ok(p) => if has_chunk_of_type(p.chunks, chunk_type) {
            Ok(
                spec_png_bytes(
                    PngModel {
                        header: p.header,
                        chunks: p.chunks.remove(spec_first_of_type(p.chunks, chunk_type)),
                    },
                ),
            )
        } else {
            Err(PngError::ChunkNotFound)
        },
    }
}

/// The file that encoding gives is a PNG file that reads as the input file
/// with the new chunk placed before its end chunk (after its last chunk when
/// it has no end chunk at the end), so an end chunk stays last.
pub proof fn lemma_encode_output_reads_back(file: Seq<u8>, chunk_type: Seq<u8>, message: Seq<u8>)
    requires
        spec_encode(file, chunk_type, message) is Ok,
        message.len() <= u32::MAX,
    ensures
        ({
            let p = spec_parse_png(file)->Ok_0;
            spec_parse_png(spec_encode(file, chunk_type, message)->Ok_0) == Ok::<PngModel, PngError>(
                PngModel {
                    header: p.header,
                    chunks: spec_insert_before_end(p.chunks, spec_new_chunk(chunk_type, message)),
                },
            )
        }),
        ends_with_end_chunk(spec_parse_png(file)->Ok_0.chunks) ==> ends_with_end_chunk(
            spec_parse_png(spec_encode(file, chunk_type, message)->Ok_0)->Ok_0.chunks,
        ),
{
    let p = spec_parse_png(file)->Ok_0;
    lemma_png_bytes_of_parse(file);
    let c = spec_new_chunk(chunk_type, message);
    lemma_new_chunk_consistent(chunk_type, message);
    let q = PngModel { header: p.header, chunks: spec_insert_before_end(p.chunks, c) };
    lemma_insert_before_end(p.chunks, c);
    let k = spec_insert_index(p.chunks);
    assert(all_consistent(q.chunks)) by {
        assert forall|i: int| 0 <= i < q.chunks.len() implies #[trigger] crate::chunk::is_consistent(
            q.chunks[i],
        ) by {
            if i < k {
                assert(q.chunks[i] == p.chunks[i]);
            } else if i > k {
                assert(q.chunks[i] == p.chunks[i - 1]);
            }
        }
    }
    lemma_parse_png_bytes(q);
}

/// Decoding a message just encoded under a chunk type that the file did not
/// hold yet gives the message back.
pub proof fn lemma_decode_after_encode(file: Seq<u8>, chunk_type: Seq<u8>, message: Seq<char>)
    requires
        spec_encode(file, chunk_type, encode_utf8(message)) is Ok,
        !has_chunk_of_type(spec_parse_png(file)->Ok_0.chunks, chunk_type),
        encode_utf8(message).len() <= u32::MAX,
    ensures
        spec_decode(spec_encode(file, chunk_type, encode_utf8(message))->Ok_0, chunk_type) == Ok::<
            Seq<char>,
            PngError,
        >(message),
{
    let m = encode_utf8(message);
    let p = spec_parse_png(file)->Ok_0;
    lemma_encode_output_reads_back(file, chunk_type, m);
    let cs = spec_insert_before_end(p.chunks, spec_new_chunk(chunk_type, m));
    let n = spec_insert_index(p.chunks);
    lemma_insert_before_end(p.chunks, spec_new_chunk(chunk_type, m));
    assert(is_first_of_type(cs, chunk_type, n)) by {
        assert forall|j: int| 0 <= j < n implies #[trigger] cs[j].chunk_type != chunk_type by {
            assert(cs[j] == p.chunks[j]);
        }
    }
    assert(has_chunk_of_type(cs, chunk_type));
    lemma_first_of_type_exists(cs, chunk_type);
    lemma_first_of_type_unique(cs, chunk_type, n, spec_first_of_type(cs, chunk_type));
    encode_utf8_valid_utf8(message);
    encode_utf8_decode_utf8(message);
}

/// Removing a message just encoded under a chunk type that the file did not
/// hold yet gives the input file back, as it reads (without the fewer than
/// four trailing bytes that reading skips).
pub proof fn lemma_remove_after_encode(file: Seq<u8>, chunk_type: Seq<u8>, message: Seq<u8>)
    requires
        spec_encode(file, chunk_type, message) is Ok,
        !has_chunk_of_type(spec_parse_png(file)->Ok_0.chunks, chunk_type),
        message.len() <= u32::MAX,
    ensures
        spec_remove(spec_encode(file, chunk_type, message)->Ok_0, chunk_type) == Ok::<
            Seq<u8>,
            PngError,
        >(spec_png_bytes(spec_parse_png(file)->Ok_0)),
        spec_png_bytes(spec_parse_png(file)->Ok_0) == file.subrange(
            0,
            spec_png_bytes(spec_parse_png(file)->Ok_0).len() as int,
        ),
{
    let p = spec_parse_png(file)->Ok_0;
    lemma_encode_output_reads_back(file, chunk_type, message);
    lemma_png_bytes_of_parse(file);
    let cs = spec_insert_before_end(p.chunks, spec_new_chunk(chunk_type, message));
    let n = spec_insert_index(p.chunks);
    lemma_insert_before_end(p.chunks, spec_new_chunk(chunk_type, message));
    assert(is_first_of_type(cs, chunk_type, n)) by {
        assert forall|j: int| 0 <= j < n implies #[trigger] cs[j].chunk_type != chunk_type by {
            assert(cs[j] == p.chunks[j]);
        }
    }
    assert(has_chunk_of_type(cs, chunk_type));
    lemma_first_of_type_exists(cs, chunk_type);
    lemma_first_of_type_unique(cs, chunk_type, n, spec_first_of_type(cs, chunk_type));
}

/// Encoding succeeds exactly when the file reads as a PNG file and the chunk
/// type is four ASCII letters whose fourth letter is lower case (safe to copy),
/// whatever the case of the other three; otherwise the first of these checks
/// that fails gives the error.
pub proof fn lemma_encode_outcome(file: Seq<u8>, chunk_type: Seq<u8>, message: Seq<u8>)
    ensures
        spec_encode(file, chunk_type, message) is Ok <==> (spec_parse_png(file) is Ok
            && spec_chunk_type_from_bytes(chunk_type) is Ok && bit5_set(chunk_type[3])),
        spec_parse_png(file) matches Err(e) ==> spec_encode(file, chunk_type, message) == Err::<
            Seq<u8>,
            PngError,
        >(e),
        spec_parse_png(file) is Ok ==> (spec_chunk_type_from_bytes(chunk_type) matches Err(e)
            ==> spec_encode(file, chunk_type, message) == Err::<Seq<u8>, PngError>(e)),
        spec_parse_png(file) is Ok && spec_chunk_type_from_bytes(chunk_type) is Ok && !bit5_set(
            chunk_type[3],
        ) ==> spec_encode(file, chunk_type, message) == Err::<Seq<u8>, PngError>(
            PngError::NotSafeToCopy,
        ),
{
}

/// Decoding reads the first chunk of the type, whatever chunks of that type
/// follow it: its data as text when that data is valid UTF-8, refused as not
/// UTF-8 otherwise.
pub proof fn lemma_decode_reads_first_chunk(file: Seq<u8>, chunk_type: Seq<u8>, i: int)
    requires
        spec_parse_png(file) is Ok,
        is_first_of_type(spec_parse_png(file)->Ok_0.chunks, chunk_type, i),
    ensures
        ({
            let data = spec_parse_png(file)->Ok_0.chunks[i].data;
            &&& valid_utf8(data) ==> spec_decode(file, chunk_type) == Ok::<Seq<char>, PngError>(
                decode_utf8(data),
            )
            &&& !valid_utf8(data) ==> spec_decode(file, chunk_type) == Err::<Seq<char>, PngError>(
                PngError::InvalidUtf8,
            )
        }),
{
    let cs = spec_parse_png(file)->Ok_0.chunks;
    assert(has_chunk_of_type(cs, chunk_type));
    lemma_first_of_type_exists(cs, chunk_type);
    lemma_first_of_type_unique(cs, chunk_type, i, spec_first_of_type(cs, chunk_type));
}

/// Removing drops exactly the first chunk of the type, whatever chunks of that
/// type follow it, and keeps the signature and the other chunks in order.
pub proof fn lemma_remove_drops_first_chunk(file: Seq<u8>, chunk_type: Seq<u8>, i: int)
    requires
        spec_parse_png(file) is Ok,
        is_first_of_type(spec_parse_png(file)->Ok_0.chunks, chunk_type, i),
    ensures
        spec_remove(file, chunk_type) == Ok::<Seq<u8>, PngError>(
            spec_png_bytes(
                PngModel {
                    header: spec_parse_png(file)->Ok_0.header,
                    chunks: spec_parse_png(file)->Ok_0.chunks.remove(i),
                },
            ),
        ),
{
    let cs = spec_parse_png(file)->Ok_0.chunks;
    assert(has_chunk_of_type(cs, chunk_type));
    lemma_first_of_type_exists(cs, chunk_type);
    lemma_first_of_type_unique(cs, chunk_type, i, spec_first_of_type(cs, chunk_type));
}

/// Decoding and removing are refused as not found exactly when the file reads
/// but holds no chunk of the type, and give the reading error when the file
/// does not read.
pub proof fn lemma_decode_remove_refusals(file: Seq<u8>, chunk_type: Seq<u8>)
    ensures
        spec_parse_png(file) matches Err(e) ==> spec_decode(file, chunk_type) == Err::<
            Seq<char>,
            PngError,
        >(e) && spec_remove(file, chunk_type) == Err::<Seq<u8>, PngError>(e),
        spec_parse_png(file) is Ok ==> (spec_remove(file, chunk_type) is Ok <==> has_chunk_of_type(
            spec_parse_png(file)->Ok_0.chunks,
            chunk_type,
        )),
        spec_parse_png(file) is Ok && !has_chunk_of_type(spec_parse_png(file)->Ok_0.chunks, chunk_type)
            ==> spec_decode(file, chunk_type) == Err::<Seq<char>, PngError>(PngError::ChunkNotFound)
            && spec_remove(file, chunk_type) == Err::<Seq<u8>, PngError>(PngError::ChunkNotFound),
{
}

/// Hides `message` in a new chunk of the type written as `chunk_type`, placed
/// just before the end chunk of the PNG file `file_data` (after its last chunk
/// when that is not an end chunk); gives the bytes of the new file. The type must be four ASCII letters and safe to copy.
pub fn encode_png_message(file_data: &[u8], chunk_type: &str, message: &str) -> (r: Result<
    Vec<u8>,
    PngError,
>)
    ensures
        r matches Ok(bytes) ==> spec_encode(file_data@, chunk_type.spec_bytes(), message.spec_bytes())
            == Ok::<Seq<u8>, PngError>(bytes@),
        r matches Err(e) ==> spec_encode(file_data@, chunk_type.spec_bytes(), message.spec_bytes())
            == Err::<Seq<u8>, PngError>(e),
{
    let mut png = match Png::try_from(file_data) {
        Ok(p) => p,
        Err(e) => return Err(e),
    };
    let message_data = bytes_to_vec(message.as_bytes());
    let new_chunk_type = match ChunkType::from_str(chunk_type) {
        Ok(t) => t,
        Err(e) => return Err(e),
    };
    let hidden_msg_chunk = Chunk::new(new_chunk_type, message_data);
    if !hidden_msg_chunk.chunk_type().is_safe_to_copy() {
        return Err(PngError::NotSafeToCopy);
    }
    png.insert_before_end(hidden_msg_chunk);
    Ok(png.as_bytes())
}

/// Reads the message hidden in the first chunk of the type written as
/// `chunk_type` in the PNG file `file_data`.
pub fn decode_png_message(file_data: &[u8], chunk_type: &str) -> (r: Result<String, PngError>)
    ensures
        r matches Ok(text) ==> spec_decode(file_data@, chunk_type.spec_bytes()) == Ok::<
            Seq<char>,
            PngError,
        >(text@),
        r matches Err(e) ==> spec_decode(file_data@, chunk_type.spec_bytes()) == Err::<
            Seq<char>,
            PngError,
        >(e),
{
    let png = match Png::try_from(file_data) {
        Ok(p) => p,
        Err(e) => return Err(e),
    };
    let wanted = chunk_type.as_bytes();
    let chunks = png.chunks();
    let ghost models = png@.chunks;
    let mut i: usize = 0;
    while i < chunks.len()
        invariant
            i <= chunks@.len(),
            chunks@.map_values(|c: Chunk| c@) == models,
            spec_parse_png(file_data@) == Ok::<PngModel, PngError>(png@),
            models == png@.chunks,
            wanted@ == chunk_type.spec_bytes(),
            forall|j: int| 0 <= j < i ==> #[trigger] models[j].chunk_type != wanted@,
        decreases chunks@.len() - i,
    {
        let t = chunks[i].chunk_type().bytes();
        if bytes_equal(&t, wanted) {
            proof {
                assert(models[i as int] == chunks@[i as int]@);
                assert(is_first_of_type(models, wanted@, i as int));
                assert(has_chunk_of_type(models, wanted@));
                lemma_first_of_type_exists(models, wanted@);
                lemma_first_of_type_unique(
                    models,
                    wanted@,
                    i as int,
                    spec_first_of_type(models, wanted@),
                );
            }
            return chunks[i].data_as_string();
        }
        i = i + 1;
    }
    Err(PngError::ChunkNotFound)
}

/// Removes the first chunk of the type written as `chunk_type` from the PNG
/// file `file_data`; gives the bytes of the new file.
pub fn remove_png_message(file_data: &[u8], chunk_type: &str) -> (r: Result<Vec<u8>, PngError>)
    ensures
        r matches Ok(bytes) ==> spec_remove(file_data@, chunk_type.spec_bytes()) == Ok::<
            Seq<u8>,
            PngError,
        >(bytes@),
        r matches Err(e) ==> spec_remove(file_data@, chunk_type.spec_bytes()) == Err::<
            Seq<u8>,
            PngError,
        >(e),
{
    let mut png = match Png::try_from(file_data) {
        Ok(p) => p,
        Err(e) => return Err(e),
    };
    let ghost before = png@;
    match png.remove_first_chunk(chunk_type) {
        Ok(_) => {},
        Err(e) => return Err(e),
    }
    proof {
        let t = chunk_type.spec_bytes();
        let i = choose|i: int|
            #[trigger] is_first_of_type(before.chunks, t, i) && png@.chunks
                == before.chunks.remove(i);
        lemma_first_of_type_exists(before.chunks, t);
        lemma_first_of_type_unique(before.chunks, t, i, spec_first_of_type(before.chunks, t));
    }
    Ok(png.as_bytes())
}

/// The description of the chunks `cs`: the text of each chunk followed by an
/// empty line.
pub open spec fn spec_chunks_report(cs: Seq<ChunkModel>) -> Seq<char>
    decreases cs.len(),
{
    if cs.len() == 0 {
        Seq::empty()
    } else {
        spec_chunks_report(cs.drop_last()) + spec_chunk_text(cs.last()) + "\n"@
    }
}

/// The description of the file at `path`: its path, its number of chunks,
/// then each chunk.
pub open spec fn spec_report(path: Seq<char>, p: PngModel) -> Seq<char> {
    "PNG File: "@ + path + "\n"@ + "Number of Chunks: "@ + decimal_text(p.chunks.len()) + "\n"@
        + "Chunks:\n"@ + spec_chunks_report(p.chunks)
}

/// The description of two runs of chunks, one after the other, is the
/// description of the first run followed by that of the second.
pub proof fn lemma_chunks_report_concat(a: Seq<ChunkModel>, b: Seq<ChunkModel>)
    ensures
        spec_chunks_report(a + b) == spec_chunks_report(a) + spec_chunks_report(b),
    decreases b.len(),
{
    if b.len() == 0 {
        assert(a + b =~= a);
        assert(spec_chunks_report(a) + spec_chunks_report(b) =~= spec_chunks_report(a));
    } else {
        lemma_chunks_report_concat(a, b.drop_last());
        assert((a + b).drop_last() =~= a + b.drop_last());
        assert((a + b).last() == b.last());
        let ra = spec_chunks_report(a);
        let rb = spec_chunks_report(b.drop_last());
        let t = spec_chunk_text(b.last()) + "\n"@;
        assert(spec_chunks_report(a + b) =~= ra + rb + spec_chunk_text(b.last()) + "\n"@);
        assert(spec_chunks_report(b) =~= rb + spec_chunk_text(b.last()) + "\n"@);
        assert(spec_chunks_report(a + b) =~= spec_chunks_report(a) + spec_chunks_report(b));
    }
}

/// The description of a file gives its path and its number of chunks, then
/// describes every chunk it holds, in file order, each followed by an empty
/// line: the description of chunk `i` stands between those of the chunks
/// before it and those after it, for every `i`.
pub proof fn lemma_report_lists_every_chunk(path: Seq<char>, p: PngModel, i: int)
    requires
        0 <= i < p.chunks.len(),
    ensures
        spec_report(path, p) == "PNG File: "@ + path + "\n"@ + "Number of Chunks: "@ + decimal_text(
            p.chunks.len(),
        ) + "\n"@ + "Chunks:\n"@ + spec_chunks_report(p.chunks),
        spec_chunks_report(p.chunks) == spec_chunks_report(p.chunks.subrange(0, i)) + (
        spec_chunk_text(p.chunks[i]) + "\n"@) + spec_chunks_report(
            p.chunks.subrange(i + 1, p.chunks.len() as int),
        ),
        spec_chunks_report(Seq::<ChunkModel>::empty()) == Seq::<char>::empty(),
{
    let cs = p.chunks;
    let a = cs.subrange(0, i);
    let b = cs.subrange(i + 1, cs.len() as int);
    let one = seq![cs[i]];
    assert(cs =~= a + one + b);
    lemma_chunks_report_concat(a + one, b);
    lemma_chunks_report_concat(a, one);
    let e = Seq::<ChunkModel>::empty();
    assert(one.drop_last() =~= e);
    assert(one.last() == cs[i]);
    assert(spec_chunks_report(e) == Seq::<char>::empty());
    assert(spec_chunks_report(one) == spec_chunks_report(e) + spec_chunk_text(cs[i]) + "\n"@);
    assert(spec_chunks_report(one) =~= spec_chunk_text(cs[i]) + "\n"@);
}

/// Describes the PNG file `file_data`, found at `path`: its path, its number
/// of chunks, then each chunk.
pub fn print_png_report(path: &str, file_data: &[u8]) -> (r: Result<String, PngError>)
    ensures
        r matches Ok(text) ==> spec_parse_png(file_data@) is Ok && text@ == spec_report(
            path@,
            spec_parse_png(file_data@)->Ok_0,
        ),
        r matches Err(e) ==> spec_parse_png(file_data@) == Err::<PngModel, PngError>(e),
{
    let png = match Png::try_from(file_data) {
        Ok(p) => p,
        Err(e) => return Err(e),
    };
    let chunks = png.chunks();
    let ghost models = png@.chunks;
    let mut r = String::new();
    push_str(&mut r, "PNG File: ");
    push_str(&mut r, path);
    push_str(&mut r, "\n");
    push_str(&mut r, "Number of Chunks: ");
    push_decimal(&mut r, chunks.len() as u64);
    push_str(&mut r, "\n");
    push_str(&mut r, "Chunks:\n");
    let ghost start = r@;
    let mut i: usize = 0;
    while i < chunks.len()
        invariant
            i <= chunks@.len(),
            chunks@.map_values(|c: Chunk| c@) == models,
            r@ == start + spec_chunks_report(models.subrange(0, i as int)),
        decreases chunks@.len() - i,
    {
        let text = chunks[i].to_string();
        push_str(&mut r, text.as_str());
        push_str(&mut r, "\n");
        proof {
            let next = models.subrange(0, i + 1);
            assert(next.drop_last() =~= models.subrange(0, i as int));
            assert(next.last() == chunks@[i as int]@);
        }
        i = i + 1;
    }
    assert(models.subrange(0, models.len() as int) =~= models);
    Ok(r)
}

} // verus!
