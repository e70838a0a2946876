use vstd::prelude::*;
use vstd::slice::*;
use vstd::string::*;
use vstd::utf8::*;
use crate::checksum::{checksum, crc32_iso_hdlc};
use crate::chunk_type::{valid_type_bytes, ChunkType};
use crate::error::PngError;
use crate::text::{
    ascii_text, decimal_string, decimal_text, string_from_utf8, string_from_utf8_lossy, utf8_lossy,
};
use crate::utils::{
    be_bytes, be_value, lemma_be_bytes_of_value, lemma_be_value_injective,
    lemma_be_value_of_bytes, push_all, read_be_u32, u32_be_bytes,
};

verus! {

/// What a chunk is: a type and a payload. Its length field and its checksum
/// are derived from these two.
pub struct ChunkView {
    pub chunk_type: Seq<u8>,
    pub data: Seq<u8>,
}

impl ChunkView {
    /// The line that describes the chunk, with `payload` standing for the
    /// payload's text.
    pub open spec fn description(self, payload: Seq<char>) -> Seq<char> {
        "data_length:"@ + decimal_text(self.data.len()) + ",chunk_type:"@ + ascii_text(
            self.chunk_type,
        ) + ",chunk_data:"@ + payload + ", crc:"@ + decimal_text(self.crc() as nat)
    }

    /// A chunk that can exist: the type is four letters and the payload's
    /// length fits the 32-bit length field.
    pub open spec fn wf(self) -> bool {
        valid_type_bytes(self.chunk_type) && self.data.len() <= u32::MAX
    }

    /// The bytes that the checksum covers: the type, then the payload.
    pub open spec fn body(self) -> Seq<u8> {
        self.chunk_type + self.data
    }

    /// The chunk's checksum.
    pub open spec fn crc(self) -> u32 {
        crc32_iso_hdlc(self.body())
    }

    /// The chunk as a record: length, type, payload, checksum.
    pub open spec fn encoding(self) -> Seq<u8> {
        be_bytes(self.data.len() as int) + self.chunk_type + self.data + be_bytes(
            self.crc() as int,
        )
    }
}

/// The part of a record that its checksum covers.
pub open spec fn record_body(b: Seq<u8>) -> Seq<u8> {
    b.subrange(4, b.len() - 4)
}

/// What a record decodes to, given the checksum `computed` of its body.
/// The checks come in this order: the record's size, its declared length,
/// its stored checksum, its type.
pub open spec fn decode_with(b: Seq<u8>, computed: u32) -> Result<ChunkView, PngError> {
    if b.len() < 12 {
        Err(PngError::ChunkError)
    } else if be_value(b.subrange(0, 4)) != b.len() - 12 {
        Err(PngError::ChunkError)
    } else if be_value(b.subrange(b.len() - 4, b.len() as int)) != computed {
        Err(PngError::ChunkError)
    } else if !valid_type_bytes(b.subrange(4, 8)) {
        Err(PngError::ChunkTypeError)
    } else {
        Ok(ChunkView { chunk_type: b.subrange(4, 8), data: b.subrange(8, b.len() - 4) })
    }
}

/// What a record decodes to.
pub open spec fn decode(b: Seq<u8>) -> Result<ChunkView, PngError> {
    decode_with(b, crc32_iso_hdlc(record_body(b)))
}

/// Two byte sequences of one length that differ at index `i` and nowhere
/// else.
pub open spec fn differs_only_at(a: Seq<u8>, b: Seq<u8>, i: int) -> bool {
    &&& a.len() == b.len()
    &&& 0 <= i < a.len()
    &&& a[i] != b[i]
    &&& forall|j: int| 0 <= j < a.len() && j != i ==> a[j] == b[j]
}

/// The four fields of a chunk's record, and the part that the checksum
/// covers.
pub proof fn lemma_encoding_parts(v: ChunkView)
    requires
        v.chunk_type.len() == 4,
    ensures
        ({
            let e = v.encoding();
            &&& e.len() == 12 + v.data.len()
            &&& e.subrange(0, 4) == be_bytes(v.data.len() as int)
            &&& e.subrange(4, 8) == v.chunk_type
            &&& e.subrange(8, e.len() - 4) == v.data
            &&& e.subrange(e.len() - 4, e.len() as int) == be_bytes(v.crc() as int)
            &&& record_body(e) == v.body()
        }),
{
    let e = v.encoding();
    assert(be_bytes(v.data.len() as int).len() == 4);
    assert(be_bytes(v.crc() as int).len() == 4);
    assert(e.len() == 12 + v.data.len());
    assert(e.subrange(0, 4) =~= be_bytes(v.data.len() as int));
    assert(e.subrange(4, 8) =~= v.chunk_type);
    assert(e.subrange(8, e.len() - 4) =~= v.data);
    assert(e.subrange(e.len() - 4, e.len() as int) =~= be_bytes(v.crc() as int));
    assert(record_body(e) =~= v.body());
}

/// Round trip: the record of a well-formed chunk is `12 + length` bytes
/// long and decodes to that chunk, so to its type, its payload, its length
/// and its checksum.
pub proof fn lemma_decode_encoding(v: ChunkView)
    requires
        v.wf(),
    ensures
        v.encoding().len() == 12 + v.data.len(),
        decode(v.encoding()) == Ok::<ChunkView, PngError>(v),
{
    lemma_encoding_parts(v);
    lemma_be_value_of_bytes(v.data.len() as int);
    lemma_be_value_of_bytes(v.crc() as int);
}

/// Whatever decodes is a well-formed chunk, and its record is the very
/// bytes it was decoded from.
pub proof fn lemma_encoding_of_decoded(b: Seq<u8>)
    requires
        decode(b) is Ok,
    ensures
        decode(b)->Ok_0.wf(),
        decode(b)->Ok_0.encoding() == b,
{
    let v = decode(b)->Ok_0;
    lemma_be_bytes_of_value(b.subrange(0, 4));
    lemma_be_bytes_of_value(b.subrange(b.len() - 4, b.len() as int));
    assert(v.body() =~= record_body(b));
    assert(v.encoding() =~= b);
}

/// A change in the length field makes the declared length wrong.
proof fn lemma_tampered_length(v: ChunkView, t: Seq<u8>, i: int)
    requires
        v.wf(),
        differs_only_at(v.encoding(), t, i),
        i < 4,
    ensures
        decode(t) == Err::<ChunkView, PngError>(PngError::ChunkError),
{
    let e = v.encoding();
    lemma_encoding_parts(v);
    lemma_be_value_of_bytes(v.data.len() as int);
    assert(be_value(e.subrange(0, 4)) == t.len() - 12);
    if be_value(t.subrange(0, 4)) == be_value(e.subrange(0, 4)) {
        lemma_be_value_injective(t.subrange(0, 4), e.subrange(0, 4));
        assert(t.subrange(0, 4)[i] == t[i]);
        assert(e.subrange(0, 4)[i] == e[i]);
    }
}

/// A change in the checksum field makes the stored checksum wrong.
proof fn lemma_tampered_checksum(v: ChunkView, t: Seq<u8>, i: int)
    requires
        v.wf(),
        differs_only_at(v.encoding(), t, i),
        i >= t.len() - 4,
    ensures
        decode(t) == Err::<ChunkView, PngError>(PngError::ChunkError),
{
    let e = v.encoding();
    let n = e.len() as int;
    lemma_encoding_parts(v);
    lemma_be_value_of_bytes(v.crc() as int);
    assert(record_body(t) =~= record_body(e));
    assert(be_value(e.subrange(n - 4, n)) == v.crc());
    if be_value(t.subrange(n - 4, n)) == be_value(e.subrange(n - 4, n)) {
        lemma_be_value_injective(t.subrange(n - 4, n), e.subrange(n - 4, n));
        assert(t.subrange(n - 4, n)[i - (n - 4)] == t[i]);
        assert(e.subrange(n - 4, n)[i - (n - 4)] == e[i]);
    }
}

/// A change in the type or the payload leaves the length field and the
/// checksum field as they were, so the record is malformed exactly when
/// the checksum of its body has changed.
proof fn lemma_tampered_body(v: ChunkView, t: Seq<u8>, i: int)
    requires
        v.wf(),
        differs_only_at(v.encoding(), t, i),
        4 <= i < t.len() - 4,
    ensures
        decode(t) == Err::<ChunkView, PngError>(PngError::ChunkError) <==> crc32_iso_hdlc(
            record_body(t),
        ) != v.crc(),
{
    let e = v.encoding();
    let n = e.len() as int;
    lemma_encoding_parts(v);
    lemma_be_value_of_bytes(v.data.len() as int);
    lemma_be_value_of_bytes(v.crc() as int);
    assert(t.subrange(0, 4) =~= e.subrange(0, 4));
    assert(t.subrange(n - 4, n) =~= e.subrange(n - 4, n));
    assert(be_value(t.subrange(0, 4)) == t.len() - 12);
    assert(be_value(t.subrange(n - 4, n)) == v.crc());
}

/// Tampering: let `t` be the record of a well-formed chunk with one byte
/// changed. If the byte lies in the length field or in the checksum field,
/// `t` is rejected as malformed. If it lies in the type or the payload, `t`
/// is rejected as malformed exactly when the checksum of the changed body
/// differs from the chunk's own; whether it does is a property of the
/// checksum, which this library does not model.
pub proof fn lemma_tampered_record(v: ChunkView, t: Seq<u8>, i: int)
    requires
        v.wf(),
        differs_only_at(v.encoding(), t, i),
    ensures
        i < 4 || i >= t.len() - 4 ==> decode(t) == Err::<ChunkView, PngError>(
            PngError::ChunkError,
        ),
        4 <= i < t.len() - 4 ==> (decode(t) == Err::<ChunkView, PngError>(PngError::ChunkError)
            <==> crc32_iso_hdlc(record_body(t)) != v.crc()),
{
    if i < 4 {
        lemma_tampered_length(v, t, i);
    } else if i >= t.len() - 4 {
        lemma_tampered_checksum(v, t, i);
    } else {
        lemma_tampered_body(v, t, i);
    }
}

/// A length-prefixed, checksummed record of a PNG stream.
#[derive(Debug)]
pub struct Chunk {
    length: u32,
    chunk_type: ChunkType,
    chunk_data: Vec<u8>,
    crc: u32,
}

impl View for Chunk {
    type V = ChunkView;

    closed spec fn view(&self) -> ChunkView {
        ChunkView { chunk_type: self.chunk_type@, data: self.chunk_data@ }
    }
}

impl Chunk {
    /// What holds of every chunk: its type is valid, and its length and its
    /// checksum are those of its payload.
    #[verifier::type_invariant]
    pub closed spec fn inv(self) -> bool {
        &&& valid_type_bytes(self.chunk_type@)
        &&& self.length == self.chunk_data@.len()
        &&& self.crc == crc32_iso_hdlc(self.chunk_type@ + self.chunk_data@)
    }

    /// A chunk that meets its invariant has a well-formed view.
    pub proof fn lemma_inv_is_wf(self)
        requires
            self.inv(),
        ensures
            self@.wf(),
    {
    }

    /// Makes a chunk of the given type and payload; the length and the
    /// checksum are computed.
    pub fn new(chunk_type: ChunkType, data: Vec<u8>) -> (c: Chunk)
        requires
            data@.len() <= u32::MAX,
        ensures
            c@ == (ChunkView { chunk_type: chunk_type@, data: data@ }),
            c@.wf(),
    {
        let tb = chunk_type.bytes();
        let mut t: Vec<u8> = Vec::new();
        push_all(&mut t, tb.as_slice());
        push_all(&mut t, data.as_slice());
        assert(t@ =~= chunk_type@ + data@);
        let crc = checksum(t.as_slice());
        Chunk { length: data.len() as u32, chunk_type, chunk_data: data, crc }
    }

    /// The chunk as a record of `12 + length` bytes, which decodes to the
    /// chunk again.
    pub fn as_bytes(&self) -> (r: Vec<u8>)
        ensures
            r@ == self@.encoding(),
            r@.len() == 12 + self@.data.len(),
            self@.wf(),
            decode(r@) == Ok::<ChunkView, PngError>(self@),
    {
        proof {
            use_type_invariant(self);
            lemma_decode_encoding(self@);
        }
        let mut out: Vec<u8> = Vec::new();
        let len_bytes = u32_be_bytes(self.length);
        let type_bytes = self.chunk_type.bytes();
        let crc_bytes = u32_be_bytes(self.crc);
        push_all(&mut out, len_bytes.as_slice());
        push_all(&mut out, type_bytes.as_slice());
        push_all(&mut out, self.chunk_data.as_slice());
        push_all(&mut out, crc_bytes.as_slice());
        assert(out@ =~= self@.encoding());
        out
    }

    /// The payload.
    pub fn data(&self) -> (r: &[u8])
        ensures
            r@ == self@.data,
            self@.wf(),
    {
        proof {
            use_type_invariant(self);
        }
        self.chunk_data.as_slice()
    }

    /// The payload's length in bytes.
    pub fn length(&self) -> (r: u32)
        ensures
            r == self@.data.len(),
            self@.wf(),
    {
        proof {
            use_type_invariant(self);
        }
        self.length
    }

    /// The checksum of the type and the payload.
    pub fn crc(&self) -> (r: u32)
        ensures
            r == self@.crc(),
            self@.wf(),
    {
        proof {
            use_type_invariant(self);
        }
        self.crc
    }

    /// The chunk's type.
    pub fn chunk_type(&self) -> (r: &ChunkType)
        ensures
            r@ == self@.chunk_type,
            self@.wf(),
    {
        proof {
            use_type_invariant(self);
        }
        &self.chunk_type
    }

    /// The payload as text: the characters it encodes if it is valid UTF-8,
    /// an error if it is not.
    pub fn data_as_string(&self) -> (r: Result<String, PngError>)
        ensures
            valid_utf8(self@.data) ==> r is Ok && r->Ok_0@ == decode_utf8(self@.data),
            !valid_utf8(self@.data) ==> r == Err::<String, PngError>(PngError::FormatError),
    {
        match string_from_utf8(slice_to_vec(self.chunk_data.as_slice())) {
            Ok(s) => Ok(s),
            Err(_) => Err(PngError::FormatError),
        }
    }

    /// Describes the chunk in one line, given the text to show for its
    /// payload.
    pub fn describe(&self, payload: &str) -> (r: String)
        ensures
            r@ == self@.description(payload@),
    {
        proof {
            use_type_invariant(self);
        }
        let mut out = String::new();
        out.append("data_length:");
        out.append(decimal_string(self.length).as_str());
        out.append(",chunk_type:");
        out.append(self.chunk_type.to_string().as_str());
        out.append(",chunk_data:");
        out.append(payload);
        out.append(", crc:");
        out.append(decimal_string(self.crc).as_str());
        assert(out@ =~= self@.description(payload@));
        out
    }

    /// Describes the chunk in one line: its length, its type, its payload
    /// decoded lossily as UTF-8, its checksum.
    pub fn to_string(&self) -> (r: String)
        ensures
            r@ == self@.description(utf8_lossy(self@.data)),
            valid_utf8(self@.data) ==> r@ == self@.description(decode_utf8(self@.data)),
    {
        let payload = string_from_utf8_lossy(self.chunk_data.as_slice());
        self.describe(payload.as_str())
    }

    /// Decodes a record whose body has the checksum `computed`: checks the
    /// framing, the stored checksum and the type, and returns the type and
    /// the payload.
    pub fn decode_with_checksum(bytes: &[u8], computed: u32) -> (r: Result<
        (ChunkType, Vec<u8>),
        PngError,
    >)
        ensures
            match decode_with(bytes@, computed) {
                Ok(v) => r is Ok && r->Ok_0.0@ == v.chunk_type && r->Ok_0.1@ == v.data,
                Err(e) => r == Err::<(ChunkType, Vec<u8>), PngError>(e),
            },
    {
        let len = bytes.len();
        if len < 12 {
            return Err(PngError::ChunkError);
        }
        let declared = read_be_u32(slice_subrange(bytes, 0, 4));
        if declared as usize != len - 12 {
            return Err(PngError::ChunkError);
        }
        let stored = read_be_u32(slice_subrange(bytes, len - 4, len));
        if stored != computed {
            return Err(PngError::ChunkError);
        }
        let arr: [u8; 4] = [bytes[4], bytes[5], bytes[6], bytes[7]];
        assert(arr@ =~= bytes@.subrange(4, 8));
        match ChunkType::try_from(arr) {
            Err(e) => Err(e),
            Ok(chunk_type) => {
                let data = slice_to_vec(slice_subrange(bytes, 8, len - 4));
                Ok((chunk_type, data))
            },
        }
    }

    /// Decodes one complete record.
    pub fn try_from(bytes: &[u8]) -> (r: Result<Chunk, PngError>)
        ensures
            match decode(bytes@) {
                Ok(v) => r is Ok && r->Ok_0@ == v && v.wf() && v.encoding() == bytes@,
                Err(e) => r == Err::<Chunk, PngError>(e),
            },
    {
        proof {
            if decode(bytes@) is Ok {
                lemma_encoding_of_decoded(bytes@);
            }
        }
        let len = bytes.len();
        if len < 12 {
            return Err(PngError::ChunkError);
        }
        let computed = checksum(slice_subrange(bytes, 4, len - 4));
        match Chunk::decode_with_checksum(bytes, computed) {
            Err(e) => Err(e),
            Ok((chunk_type, data)) => {
                proof {
                    lemma_be_bytes_of_value(bytes@.subrange(0, 4));
                    assert(chunk_type@ + data@ =~= record_body(bytes@));
                }
                Ok(Chunk { length: data.len() as u32, chunk_type, chunk_data: data, crc: computed })
            },
        }
    }
}

impl<'a> TryFrom<&'a [u8]> for Chunk {
    type Error = PngError;

    fn try_from(value: &'a [u8]) -> (r: Result<Self, PngError>)
        ensures
            match decode(value@) {
                Ok(v) => r is Ok && r->Ok_0@ == v,
                Err(e) => r == Err::<Chunk, PngError>(e),
            },
    {
        Chunk::try_from(value)
    }
}

/// Two chunks with one view need not be one value, so `try_from` is not
/// held to return a particular chunk: what it returns is stated by its own
/// contract, over the view.
impl<'a> vstd::std_specs::convert::TryFromSpecImpl<&'a [u8]> for Chunk {
    open spec fn obeys_try_from_spec() -> bool {
        false
    }

    open spec fn try_from_spec(v: &'a [u8]) -> Result<Self, PngError> {
        match decode(v@) {
            Ok(view) => Ok(choose|c: Chunk| c@ == view),
            Err(e) => Err(e),
        }
    }
}

} // verus!
