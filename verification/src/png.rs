use vstd::prelude::*;
use vstd::slice::*;
use vstd::string::*;
use vstd::utf8::*;
use crate::chunk::{decode, lemma_decode_encoding, lemma_encoding_of_decoded, Chunk, ChunkView};
use crate::error::PngError;
use crate::text::ascii_text;
use crate::utils::{be_bytes, be_value, lemma_be_value_of_bytes, push_all, read_be_u32};

verus! {

/// The eight bytes that every PNG stream begins with.
pub open spec fn signature() -> Seq<u8> {
    seq![137u8, 80u8, 78u8, 71u8, 13u8, 10u8, 26u8, 10u8]
}

/// `Ok(head + tail)` where the tail was decoded, its error where it was not.
pub open spec fn prepend(head: Seq<ChunkView>, tail: Result<Seq<ChunkView>, PngError>) -> Result<
    Seq<ChunkView>,
    PngError,
> {
    match tail {
        Ok(cs) => Ok(head + cs),
        Err(e) => Err(e),
    }
}

/// What a run of back-to-back records decodes to. A record that the buffer
/// ends in the middle of is an error, and so is the first record that does
/// not decode; nothing is returned for the records before it.
pub open spec fn decode_records(rest: Seq<u8>) -> Result<Seq<ChunkView>, PngError>
    decreases rest.len(),
{
    if rest.len() == 0 {
        Ok(Seq::empty())
    } else if rest.len() < 12 || rest.len() < 12 + be_value(rest.subrange(0, 4)) {
        Err(PngError::ChunkError)
    } else {
        let n = 12 + be_value(rest.subrange(0, 4));
        match decode(rest.subrange(0, n)) {
            Err(e) => Err(e),
            Ok(c) => prepend(seq![c], decode_records(rest.subrange(n, rest.len() as int))),
        }
    }
}

/// What a whole buffer parses to: the chunks that follow the signature.
pub open spec fn parse(b: Seq<u8>) -> Result<Seq<ChunkView>, PngError> {
    if b.len() < 8 || b.subrange(0, 8) != signature() {
        Err(PngError::CreatePngError)
    } else {
        decode_records(b.subrange(8, b.len() as int))
    }
}

/// The records of a list of chunks, back to back.
pub open spec fn encode_chunks(s: Seq<ChunkView>) -> Seq<u8>
    decreases s.len(),
{
    if s.len() == 0 {
        Seq::empty()
    } else {
        encode_chunks(s.drop_last()) + s.last().encoding()
    }
}

/// A list of chunks as a PNG stream: the signature, then the records.
pub open spec fn encode(s: Seq<ChunkView>) -> Seq<u8> {
    signature() + encode_chunks(s)
}

/// Every chunk of the list is well formed.
pub open spec fn all_wf(s: Seq<ChunkView>) -> bool {
    forall|i: int| 0 <= i < s.len() ==> (#[trigger] s[i]).wf()
}

/// Whether a chunk's type, read as text, is `name`.
pub open spec fn has_type(c: ChunkView, name: Seq<char>) -> bool {
    ascii_text(c.chunk_type) == name
}

/// No chunk of the list has the type `name`.
pub open spec fn no_chunk_of_type(s: Seq<ChunkView>, name: Seq<char>) -> bool {
    forall|i: int| 0 <= i < s.len() ==> !has_type(#[trigger] s[i], name)
}

/// The chunk at index `i` has the type `name`, and none before it has.
pub open spec fn is_first_of_type(s: Seq<ChunkView>, name: Seq<char>, i: int) -> bool {
    &&& 0 <= i < s.len()
    &&& has_type(s[i], name)
    &&& no_chunk_of_type(s.take(i), name)
}

/// Reads the record that starts at `pos`: the chunk and the record's size.
fn read_record(bytes: &[u8], pos: usize) -> (r: Result<(Chunk, usize), PngError>)
    requires
        pos < bytes@.len(),
    ensures
        ({
            let rest = bytes@.subrange(pos as int, bytes@.len() as int);
            let n = 12 + be_value(rest.subrange(0, 4));
            if rest.len() < 12 || rest.len() < n {
                r == Err::<(Chunk, usize), PngError>(PngError::ChunkError)
            } else {
                match decode(rest.subrange(0, n)) {
                    Err(e) => r == Err::<(Chunk, usize), PngError>(e),
                    Ok(v) => r is Ok && r->Ok_0.0@ == v && r->Ok_0.1 == n && v.wf(),
                }
            }
        }),
{
    let ghost rest = bytes@.subrange(pos as int, bytes@.len() as int);
    let left = bytes.len() - pos;
    if left < 12 {
        return Err(PngError::ChunkError);
    }
    let declared = read_be_u32(slice_subrange(bytes, pos, pos + 4));
    assert(bytes@.subrange(pos as int, pos + 4) =~= rest.subrange(0, 4));
    if declared as usize > left - 12 {
        return Err(PngError::ChunkError);
    }
    let n = 12 + declared as usize;
    let record = slice_subrange(bytes, pos, pos + n);
    assert(record@ =~= rest.subrange(0, n as int));
    match Chunk::try_from(record) {
        Err(e) => Err(e),
        Ok(c) => Ok((c, n)),
    }
}

/// A PNG stream held in memory as its ordered list of chunks.
#[derive(Debug)]
pub struct Png {
    chunks: Vec<Chunk>,
}

impl View for Png {
    type V = Seq<ChunkView>;

    closed spec fn view(&self) -> Seq<ChunkView> {
        Seq::new(self.chunks@.len(), |i: int| self.chunks@[i]@)
    }
}

impl Png {
    /// Every chunk held is well formed.
    #[verifier::type_invariant]
    spec fn inv(self) -> bool {
        forall|i: int| 0 <= i < self.chunks@.len() ==> (#[trigger] self.chunks@[i])@.wf()
    }

    /// The signature as stored in a file.
    pub const STANDARD_HEADER: [u8; 8] = [137, 80, 78, 71, 13, 10, 26, 10];

    /// Parses a whole buffer: all of it, or an error. A buffer that parses
    /// is the stream of the chunks it parses to.
    pub fn try_from(bytes: &[u8]) -> (r: Result<Png, PngError>)
        ensures
            match parse(bytes@) {
                Ok(s) => r is Ok && r->Ok_0@ == s && all_wf(s) && encode(s) == bytes@,
                Err(e) => r == Err::<Png, PngError>(e),
            },
    {
        proof {
            if parse(bytes@) is Ok {
                lemma_encode_of_parsed(bytes@);
            }
        }
        let len = bytes.len();
        if len < 8 {
            return Err(PngError::CreatePngError);
        }
        let mut k: usize = 0;
        while k < 8
            invariant
                k <= 8 <= len,
                len == bytes@.len(),
                forall|j: int| 0 <= j < k ==> bytes@[j] == signature()[j],
            decreases 8 - k,
        {
            if bytes[k] != Png::STANDARD_HEADER[k] {
                assert(bytes@.subrange(0, 8)[k as int] != signature()[k as int]);
                return Err(PngError::CreatePngError);
            }
            k = k + 1;
        }
        assert(bytes@.subrange(0, 8) =~= signature());
        let mut chunks: Vec<Chunk> = Vec::new();
        let mut pos: usize = 8;
        let ghost all = bytes@.subrange(8, len as int);
        let ghost mut done: Seq<ChunkView> = Seq::empty();
        assert(bytes@.subrange(pos as int, len as int) == all);
        assert(done + decode_records(all)->Ok_0 =~= decode_records(all)->Ok_0);
        while pos < len
            invariant
                8 <= pos <= len,
                len == bytes@.len(),
                bytes@.subrange(0, 8) == signature(),
                all == bytes@.subrange(8, len as int),
                done.len() == chunks@.len(),
                forall|i: int| 0 <= i < done.len() ==> chunks@[i]@ == #[trigger] done[i],
                all_wf(done),
                decode_records(all) == prepend(
                    done,
                    decode_records(bytes@.subrange(pos as int, len as int)),
                ),
            decreases len - pos,
        {
            let ghost rest = bytes@.subrange(pos as int, len as int);
            match read_record(bytes, pos) {
                Err(e) => {
                    assert(decode_records(rest) == Err::<Seq<ChunkView>, PngError>(e));
                    return Err(e);
                },
                Ok((c, n)) => {
                    proof {
                        let tail = decode_records(rest.subrange(n as int, rest.len() as int));
                        assert(bytes@.subrange(pos + n, len as int) =~= rest.subrange(
                            n as int,
                            rest.len() as int,
                        ));
                        assert(decode_records(rest) == prepend(seq![c@], tail));
                        if tail is Ok {
                            assert(done + (seq![c@] + tail->Ok_0) =~= done.push(c@) + tail->Ok_0);
                        }
                        done = done.push(c@);
                    }
                    chunks.push(c);
                    pos = pos + n;
                },
            }
        }
        assert(bytes@.subrange(pos as int, len as int) =~= Seq::<u8>::empty());
        assert forall|i: int| 0 <= i < chunks@.len() implies (#[trigger] chunks@[i])@.wf() by {
            assert(done[i].wf());
        }
        let png = Png { chunks };
        assert(png@ =~= done);
        assert(done + Seq::<ChunkView>::empty() =~= done);
        Ok(png)
    }

    /// The stream as bytes: the signature, then every chunk's record in
    /// order. These bytes parse to the same list of chunks.
    pub fn as_bytes(&self) -> (r: Vec<u8>)
        ensures
            r@ == encode(self@),
            all_wf(self@),
            parse(r@) == Ok::<Seq<ChunkView>, PngError>(self@),
    {
        proof {
            use_type_invariant(self);
            assert(all_wf(self@));
            lemma_parse_of_encoded(self@);
        }
        let mut out: Vec<u8> = Vec::new();
        push_all(&mut out, Png::STANDARD_HEADER.as_slice());
        assert(out@ =~= signature());
        let mut i: usize = 0;
        assert(self@.take(0) =~= Seq::<ChunkView>::empty());
        while i < self.chunks.len()
            invariant
                i <= self.chunks@.len(),
                self@.len() == self.chunks@.len(),
                out@ == signature() + encode_chunks(self@.take(i as int)),
            decreases self.chunks@.len() - i,
        {
            let record = self.chunks[i].as_bytes();
            push_all(&mut out, record.as_slice());
            proof {
                let next = self@.take(i as int + 1);
                assert(next.drop_last() =~= self@.take(i as int));
                assert(next.last() == self.chunks@[i as int]@);
                assert(out@ =~= signature() + encode_chunks(next));
            }
            i = i + 1;
        }
        assert(self@.take(i as int) =~= self@);
        out
    }

    /// Puts `chunk` at the end of the list. Its record is then the tail of
    /// the stream's bytes.
    pub fn append_chunk(&mut self, chunk: Chunk)
        ensures
            final(self)@ == old(self)@.push(chunk@),
            encode(final(self)@) == encode(old(self)@) + chunk@.encoding(),
    {
        let ghost before = self@;
        proof {
            use_type_invariant(&*self);
            use_type_invariant(&chunk);
            chunk.lemma_inv_is_wf();
        }
        // The list changes outside `self` and is put back whole, so that
        // `self` is a sound stream at every point.
        let mut chunks: Vec<Chunk> = Vec::new();
        std::mem::swap(&mut self.chunks, &mut chunks);
        chunks.push(chunk);
        self.chunks = chunks;
        proof {
            assert(self@ =~= before.push(chunk@));
            lemma_encode_push(before, chunk@);
        }
    }

    /// The index of the first chunk whose type reads `name`.
    fn position(&self, name: &str) -> (r: Option<usize>)
        ensures
            match r {
                Some(i) => is_first_of_type(self@, name@, i as int),
                None => no_chunk_of_type(self@, name@),
            },
    {
        let wanted: String = name.to_owned();
        let mut i: usize = 0;
        while i < self.chunks.len()
            invariant
                i <= self.chunks@.len(),
                self@.len() == self.chunks@.len(),
                wanted@ == name@,
                no_chunk_of_type(self@.take(i as int), name@),
            decreases self.chunks@.len() - i,
        {
            let text = self.chunks[i].chunk_type().to_string();
            if text == wanted {
                return Some(i);
            }
            proof {
                let next = self@.take(i as int + 1);
                assert forall|j: int| 0 <= j < next.len() implies !has_type(
                    #[trigger] next[j],
                    name@,
                ) by {
                    if j < i {
                        assert(self@.take(i as int)[j] == next[j]);
                    }
                }
            }
            i = i + 1;
        }
        assert(self@.take(i as int) =~= self@);
        None
    }

    /// Removes the first chunk whose type reads `chunk_type`, and no other.
    /// Without such a chunk the list stays as it is and the call fails.
    pub fn remove_chunk(&mut self, chunk_type: &str) -> (r: Result<(), PngError>)
        ensures
            no_chunk_of_type(old(self)@, chunk_type@) ==> r == Err::<(), PngError>(
                PngError::ChunkRemoveError,
            ) && final(self)@ == old(self)@,
            forall|i: int| #[trigger]
                is_first_of_type(old(self)@, chunk_type@, i) ==> r == Ok::<(), PngError>(())
                    && final(self)@ == old(self)@.remove(i),
    {
        let ghost before = self@;
        match self.position(chunk_type) {
            None => {
                proof {
                    lemma_first_is_unique(before, chunk_type@);
                }
                Err(PngError::ChunkRemoveError)
            },
            Some(i) => {
                proof {
                    use_type_invariant(&*self);
                }
                let mut chunks: Vec<Chunk> = Vec::new();
                std::mem::swap(&mut self.chunks, &mut chunks);
                chunks.remove(i);
                self.chunks = chunks;
                proof {
                    lemma_first_is_unique(before, chunk_type@);
                    assert(self@ =~= before.remove(i as int));
                }
                Ok(())
            },
        }
    }

    /// The payload, as text, of the first chunk whose type reads
    /// `chunk_type`; `None` without such a chunk; an error where that
    /// chunk's payload is not valid UTF-8.
    pub fn data_string_by_type(&self, chunk_type: &str) -> (r: Result<Option<String>, PngError>)
        ensures
            no_chunk_of_type(self@, chunk_type@) ==> r == Ok::<Option<String>, PngError>(None),
            forall|i: int| #[trigger]
                is_first_of_type(self@, chunk_type@, i) ==> {
                    if valid_utf8(self@[i].data) {
                        r is Ok && r->Ok_0 is Some && r->Ok_0->Some_0@ == decode_utf8(
                            self@[i].data,
                        )
                    } else {
                        r == Err::<Option<String>, PngError>(PngError::FormatError)
                    }
                },
    {
        proof {
            lemma_first_is_unique(self@, chunk_type@);
        }
        match self.position(chunk_type) {
            None => Ok(None),
            Some(i) => match self.chunks[i].data_as_string() {
                Ok(text) => Ok(Some(text)),
                Err(e) => Err(e),
            },
        }
    }

    /// The chunks in file order.
    pub fn chunks(&self) -> (r: &[Chunk])
        ensures
            r@.len() == self@.len(),
            forall|i: int| 0 <= i < r@.len() ==> (#[trigger] r@[i])@ == self@[i],
            all_wf(self@),
    {
        proof {
            use_type_invariant(self);
            assert(all_wf(self@));
        }
        self.chunks.as_slice()
    }
}

/// A list has at most one first chunk of a type, and has one unless it has
/// no chunk of that type at all.
pub proof fn lemma_first_is_unique(s: Seq<ChunkView>, name: Seq<char>)
    ensures
        forall|i: int, j: int|
            is_first_of_type(s, name, i) && is_first_of_type(s, name, j) ==> i == j,
        no_chunk_of_type(s, name) <==> !exists|i: int| is_first_of_type(s, name, i),
    decreases s.len(),
{
    assert forall|i: int, j: int|
        is_first_of_type(s, name, i) && is_first_of_type(s, name, j) implies i == j by {
        if i < j {
            assert(s.take(j)[i] == s[i]);
        }
        if j < i {
            assert(s.take(i)[j] == s[j]);
        }
    }
    if no_chunk_of_type(s, name) {
        assert forall|i: int| !is_first_of_type(s, name, i) by {
            if 0 <= i < s.len() {
                assert(!has_type(s[i], name));
            }
        }
    } else {
        let k = choose|k: int| 0 <= k < s.len() && has_type(#[trigger] s[k], name);
        let front = s.take(k);
        lemma_first_is_unique(front, name);
        if no_chunk_of_type(front, name) {
            assert(is_first_of_type(s, name, k));
        } else {
            let i = choose|i: int| is_first_of_type(front, name, i);
            assert(front.take(i) =~= s.take(i));
            assert(is_first_of_type(s, name, i));
        }
    }
}

/// Removing the first chunk of a type takes one chunk out and leaves every
/// other where it was relative to the rest: those before it keep their
/// index, those after it, later chunks of the same type among them, move
/// down by one.
pub proof fn lemma_remove_first_keeps_others(s: Seq<ChunkView>, name: Seq<char>, i: int)
    requires
        is_first_of_type(s, name, i),
    ensures
        s.remove(i).len() == s.len() - 1,
        forall|j: int| 0 <= j < i ==> #[trigger] s.remove(i)[j] == s[j],
        forall|j: int| i < j < s.len() ==> s.remove(i)[j - 1] == #[trigger] s[j],
        no_chunk_of_type(s.remove(i).take(i), name),
{
    assert(s.remove(i).take(i) =~= s.take(i));
}

/// Appending a chunk appends its record to the stream and puts the chunk
/// last in the list.
pub proof fn lemma_encode_push(s: Seq<ChunkView>, c: ChunkView)
    ensures
        s.push(c).last() == c,
        encode_chunks(s.push(c)) == encode_chunks(s) + c.encoding(),
        encode(s.push(c)) == encode(s) + c.encoding(),
{
    assert(s.push(c).drop_last() =~= s);
    assert(encode(s.push(c)) =~= encode(s) + c.encoding());
}

/// The records of a list are the first chunk's record, then the records of
/// the rest.
pub proof fn lemma_encode_prepend(c: ChunkView, cs: Seq<ChunkView>)
    ensures
        encode_chunks(seq![c] + cs) == c.encoding() + encode_chunks(cs),
    decreases cs.len(),
{
    let s = seq![c] + cs;
    if cs.len() == 0 {
        assert(s.drop_last() =~= Seq::<ChunkView>::empty());
        assert(encode_chunks(s) == encode_chunks(s.drop_last()) + s.last().encoding());
        assert(encode_chunks(s.drop_last()) =~= Seq::<u8>::empty());
        assert(encode_chunks(cs) =~= Seq::<u8>::empty());
        assert(encode_chunks(s) =~= c.encoding() + encode_chunks(cs));
    } else {
        lemma_encode_prepend(c, cs.drop_last());
        assert(s.drop_last() =~= seq![c] + cs.drop_last());
        assert(s.last() == cs.last());
        assert(encode_chunks(s) == encode_chunks(s.drop_last()) + s.last().encoding());
        assert(encode_chunks(cs) == encode_chunks(cs.drop_last()) + cs.last().encoding());
        assert((c.encoding() + encode_chunks(cs.drop_last())) + cs.last().encoding()
            =~= c.encoding() + (encode_chunks(cs.drop_last()) + cs.last().encoding()));
    }
}

/// How a non-empty run of records that decodes splits into its first
/// record and the rest.
proof fn lemma_decode_records_step(b: Seq<u8>)
    requires
        b.len() > 0,
        decode_records(b) is Ok,
    ensures
        ({
            let n = 12 + be_value(b.subrange(0, 4));
            let head = b.subrange(0, n);
            let rest = b.subrange(n, b.len() as int);
            &&& 12 <= n <= b.len()
            &&& decode(head) is Ok
            &&& decode_records(rest) is Ok
            &&& decode_records(b)->Ok_0 == seq![decode(head)->Ok_0] + decode_records(rest)->Ok_0
        }),
{
}

/// The first record of a run that decodes is the record of the chunk it
/// decodes to, and that chunk is well formed.
proof fn lemma_first_record(b: Seq<u8>)
    requires
        b.len() > 0,
        decode_records(b) is Ok,
    ensures
        ({
            let head = b.subrange(0, 12 + be_value(b.subrange(0, 4)));
            decode(head)->Ok_0.encoding() == head && decode(head)->Ok_0.wf()
        }),
{
    lemma_decode_records_step(b);
    lemma_encoding_of_decoded(b.subrange(0, 12 + be_value(b.subrange(0, 4))));
}

/// Joins the record of a first chunk and the records of the rest.
proof fn lemma_join(c: ChunkView, cs: Seq<ChunkView>, b: Seq<u8>, n: int)
    requires
        0 <= n <= b.len(),
        c.encoding() == b.subrange(0, n),
        encode_chunks(cs) == b.subrange(n, b.len() as int),
    ensures
        encode_chunks(seq![c] + cs) == b,
{
    lemma_encode_prepend(c, cs);
    assert(b.subrange(0, n) + b.subrange(n, b.len() as int) =~= b);
}

/// A well-formed chunk before well-formed chunks makes a list of
/// well-formed chunks.
proof fn lemma_all_wf_prepend(c: ChunkView, cs: Seq<ChunkView>)
    requires
        c.wf(),
        all_wf(cs),
    ensures
        all_wf(seq![c] + cs),
{
    let s = seq![c] + cs;
    assert forall|i: int| 0 <= i < s.len() implies (#[trigger] s[i]).wf() by {
        if i > 0 {
            assert(s[i] == cs[i - 1]);
        }
    }
}

/// Records that decode are the records of what they decode to, and every
/// chunk they decode to is well formed.
pub proof fn lemma_encode_of_decoded_records(b: Seq<u8>)
    requires
        decode_records(b) is Ok,
    ensures
        encode_chunks(decode_records(b)->Ok_0) == b,
        all_wf(decode_records(b)->Ok_0),
    decreases b.len(),
{
    if b.len() == 0 {
        assert(encode_chunks(Seq::<ChunkView>::empty()) =~= b);
    } else {
        let n = 12 + be_value(b.subrange(0, 4));
        let head = b.subrange(0, n);
        let rest = b.subrange(n, b.len() as int);
        lemma_decode_records_step(b);
        lemma_first_record(b);
        lemma_encode_of_decoded_records(rest);
        lemma_join(decode(head)->Ok_0, decode_records(rest)->Ok_0, b, n);
        lemma_all_wf_prepend(decode(head)->Ok_0, decode_records(rest)->Ok_0);
    }
}

/// Stream round trip: a buffer that parses is, byte for byte, the stream of
/// the chunks it parses to.
pub proof fn lemma_encode_of_parsed(b: Seq<u8>)
    requires
        parse(b) is Ok,
    ensures
        encode(parse(b)->Ok_0) == b,
        all_wf(parse(b)->Ok_0),
{
    lemma_encode_of_decoded_records(b.subrange(8, b.len() as int));
    assert(b.subrange(0, 8) + b.subrange(8, b.len() as int) =~= b);
}

/// The records of well-formed chunks decode to those chunks, in order.
pub proof fn lemma_decode_records_of_encoded(s: Seq<ChunkView>)
    requires
        all_wf(s),
    ensures
        decode_records(encode_chunks(s)) == Ok::<Seq<ChunkView>, PngError>(s),
    decreases s.len(),
{
    if s.len() == 0 {
        assert(s =~= Seq::<ChunkView>::empty());
    } else {
        let c = s.first();
        let cs = s.drop_first();
        assert(s =~= seq![c] + cs);
        assert(c.wf());
        assert(all_wf(cs)) by {
            assert forall|i: int| 0 <= i < cs.len() implies (#[trigger] cs[i]).wf() by {
                assert(cs[i] == s[i + 1]);
            }
        }
        lemma_encode_prepend(c, cs);
        lemma_decode_encoding(c);
        lemma_decode_records_of_encoded(cs);
        lemma_be_value_of_bytes(c.data.len() as int);
        let e = encode_chunks(s);
        let n = 12 + c.data.len();
        assert(e.subrange(0, 4) =~= be_bytes(c.data.len() as int));
        assert(e.subrange(0, n as int) =~= c.encoding());
        assert(e.subrange(n as int, e.len() as int) =~= encode_chunks(cs));
    }
}

/// The stream of a list of well-formed chunks parses to that list.
pub proof fn lemma_parse_of_encoded(s: Seq<ChunkView>)
    requires
        all_wf(s),
    ensures
        parse(encode(s)) == Ok::<Seq<ChunkView>, PngError>(s),
{
    let b = encode(s);
    lemma_decode_records_of_encoded(s);
    assert(b.subrange(0, 8) =~= signature());
    assert(b.subrange(8, b.len() as int) =~= encode_chunks(s));
}

impl<'a> TryFrom<&'a [u8]> for Png {
    type Error = PngError;

    fn try_from(value: &'a [u8]) -> (r: Result<Self, PngError>)
        ensures
            match parse(value@) {
                Ok(s) => r is Ok && r->Ok_0@ == s,
                Err(e) => r == Err::<Png, PngError>(e),
            },
    {
        Png::try_from(value)
    }
}

/// Two streams with one view need not be one value, so `try_from` is not
/// held to return a particular stream: what it returns is stated by its own
/// contract, over the view.
impl<'a> vstd::std_specs::convert::TryFromSpecImpl<&'a [u8]> for Png {
    open spec fn obeys_try_from_spec() -> bool {
        false
    }

    open spec fn try_from_spec(v: &'a [u8]) -> Result<Self, PngError> {
        match parse(v@) {
            Ok(s) => Ok(choose|p: Png| p@ == s),
            Err(e) => Err(e),
        }
    }
}

} // verus!
