//! Bounds-checked primitives of the record codec: text fields ending in a
//! zero byte, little-endian integers, length-prefixed identities and
//! one-byte flags.
use vstd::bytes::*;
use vstd::prelude::*;
use vstd::slice::*;
use vstd::utf8::*;

verus! {

broadcast use {encode_utf8_valid_utf8, encode_utf8_decode_utf8};

/// Longest identity, in bytes, that a record can carry.
pub const MAX_IDENTITY_LEN: usize = 29;

/// Why a byte string is not a record.
#[derive(Clone, Copy, Debug, PartialEq, Eq, Structural)]
pub enum DecodeError {
    /// A fixed-width field runs past the end of the buffer.
    UnexpectedEnd,
    /// A text field has no zero terminator.
    MissingTerminator,
    /// A text field is not UTF-8.
    InvalidText,
    /// An identity length prefix is larger than an identity can be.
    InvalidIdentity,
}

/// Why a record could not be encoded.
#[derive(Clone, Copy, Debug, PartialEq, Eq, Structural)]
pub enum EncodeError {
    /// The encoding is longer than the record type's maximum size.
    TooLarge,
}

/// A text value that the codec can carry: its UTF-8 form holds no zero byte.
pub open spec fn text_ok(s: Seq<char>) -> bool {
    !encode_utf8(s).contains(0u8)
}

/// Bytes of a text field: the UTF-8 form followed by a zero terminator.
pub open spec fn text_field(s: Seq<char>) -> Seq<u8> {
    encode_utf8(s).push(0u8)
}

/// Bytes of a fixed-width integer field.
pub open spec fn u64_field(n: u64) -> Seq<u8> {
    spec_u64_to_le_bytes(n)
}

/// Bytes of an identity field: a one-byte length, then the identity bytes.
pub open spec fn identity_field(id: Seq<u8>) -> Seq<u8> {
    seq![id.len() as u8] + id
}

/// Bytes of a flag field.
pub open spec fn flag_field(f: bool) -> Seq<u8> {
    if f {
        seq![1u8]
    } else {
        seq![0u8]
    }
}

/// First position at or after `pos` that holds a zero byte.
pub open spec fn find_zero(b: Seq<u8>, pos: int) -> Option<int>
    decreases b.len() - pos,
{
    if pos < 0 || pos >= b.len() {
        None
    } else if b[pos] == 0 {
        Some(pos)
    } else {
        find_zero(b, pos + 1)
    }
}

/// A text field read at `pos`: the text and the position after its terminator.
pub open spec fn parse_text(b: Seq<u8>, pos: int) -> Result<(Seq<char>, int), DecodeError> {
    match find_zero(b, pos) {
        None => Err(DecodeError::MissingTerminator),
        Some(z) => {
            let raw = b.subrange(pos, z);
            if valid_utf8(raw) {
                Ok((decode_utf8(raw), z + 1))
            } else {
                Err(DecodeError::InvalidText)
            }
        },
    }
}

/// A single byte read at `pos`.
pub open spec fn parse_u8(b: Seq<u8>, pos: int) -> Result<(u8, int), DecodeError> {
    if 0 <= pos < b.len() {
        Ok((b[pos], pos + 1))
    } else {
        Err(DecodeError::UnexpectedEnd)
    }
}

/// A flag read at `pos`: set exactly when the byte is one.
pub open spec fn parse_flag(b: Seq<u8>, pos: int) -> Result<(bool, int), DecodeError> {
    match parse_u8(b, pos) {
        Ok((v, p)) => Ok((v == 1, p)),
        Err(e) => Err(e),
    }
}

/// A little-endian `u64` read at `pos`.
pub open spec fn parse_u64(b: Seq<u8>, pos: int) -> Result<(u64, int), DecodeError> {
    if 0 <= pos && pos + 8 <= b.len() {
        Ok((spec_u64_from_le_bytes(b.subrange(pos, pos + 8)), pos + 8))
    } else {
        Err(DecodeError::UnexpectedEnd)
    }
}

/// A length-prefixed identity read at `pos`.
pub open spec fn parse_identity(b: Seq<u8>, pos: int) -> Result<(Seq<u8>, int), DecodeError> {
    if 0 <= pos < b.len() {
        let n = b[pos] as int;
        if n > MAX_IDENTITY_LEN {
            Err(DecodeError::InvalidIdentity)
        } else if pos + 1 + n <= b.len() {
            Ok((b.subrange(pos + 1, pos + 1 + n), pos + 1 + n))
        } else {
            Err(DecodeError::UnexpectedEnd)
        }
    } else {
        Err(DecodeError::UnexpectedEnd)
    }
}

/// The view of an optional text value.
pub open spec fn opt_text_view(o: Option<String>) -> Option<Seq<char>> {
    match o {
        Some(s) => Some(s@),
        None => None,
    }
}

pub open spec fn opt_text_ok(o: Option<Seq<char>>) -> bool {
    o matches Some(s) ==> text_ok(s)
}

/// Bytes of an optional text field: a presence flag, then the text if present.
pub open spec fn opt_text_field(o: Option<Seq<char>>) -> Seq<u8> {
    match o {
        Some(s) => seq![1u8] + text_field(s),
        None => seq![0u8],
    }
}

/// Bytes of an optional integer field.
pub open spec fn opt_u64_field(o: Option<u64>) -> Seq<u8> {
    match o {
        Some(n) => seq![1u8] + u64_field(n),
        None => seq![0u8],
    }
}

/// Bytes of an optional identity field.
pub open spec fn opt_identity_field(o: Option<Seq<u8>>) -> Seq<u8> {
    match o {
        Some(id) => seq![1u8] + identity_field(id),
        None => seq![0u8],
    }
}

pub open spec fn parse_opt_text(b: Seq<u8>, pos: int) -> Result<(Option<Seq<char>>, int), DecodeError> {
    match parse_flag(b, pos) {
        Err(e) => Err(e),
        Ok((f, p)) => if f {
            match parse_text(b, p) {
                Ok((s, q)) => Ok((Some(s), q)),
                Err(e) => Err(e),
            }
        } else {
            Ok((None, p))
        },
    }
}

pub open spec fn parse_opt_u64(b: Seq<u8>, pos: int) -> Result<(Option<u64>, int), DecodeError> {
    match parse_flag(b, pos) {
        Err(e) => Err(e),
        Ok((f, p)) => if f {
            match parse_u64(b, p) {
                Ok((n, q)) => Ok((Some(n), q)),
                Err(e) => Err(e),
            }
        } else {
            Ok((None, p))
        },
    }
}

pub open spec fn parse_opt_identity(b: Seq<u8>, pos: int) -> Result<(Option<Seq<u8>>, int), DecodeError> {
    match parse_flag(b, pos) {
        Err(e) => Err(e),
        Ok((f, p)) => if f {
            match parse_identity(b, p) {
                Ok((id, q)) => Ok((Some(id), q)),
                Err(e) => Err(e),
            }
        } else {
            Ok((None, p))
        },
    }
}

proof fn lemma_find_zero(b: Seq<u8>, pos: int, z: int)
    requires
        0 <= pos <= z < b.len(),
        b[z] == 0,
        forall|j: int| pos <= j < z ==> b[j] != 0,
    ensures
        find_zero(b, pos) == Some(z),
    decreases z - pos,
{
    if pos < z {
        lemma_find_zero(b, pos + 1, z);
    }
}

/// A text field written at `pos` reads back as the same text.
pub proof fn lemma_parse_text_field(b: Seq<u8>, pos: int, s: Seq<char>)
    requires
        text_ok(s),
        0 <= pos,
        pos + text_field(s).len() <= b.len(),
        b.subrange(pos, pos + text_field(s).len()) == text_field(s),
    ensures
        parse_text(b, pos) == Ok::<(Seq<char>, int), DecodeError>((s, pos + text_field(s).len())),
{
    let e = encode_utf8(s);
    let z = pos + e.len();
    assert forall|j: int| pos <= j < z implies b[j] != 0 by {
        assert(b[j] == b.subrange(pos, pos + text_field(s).len())[j - pos]);
        assert(e[j - pos] == text_field(s)[j - pos]);
        if b[j] == 0 {
            assert(e.contains(0u8));
        }
    }
    assert(b[z] == text_field(s)[e.len() as int]);
    lemma_find_zero(b, pos, z);
    assert(b.subrange(pos, z) =~= e);
}

/// A fixed-width integer field takes eight bytes.
pub proof fn lemma_u64_field_len(n: u64)
    ensures
        u64_field(n).len() == 8,
{
    lemma_auto_spec_u64_to_from_le_bytes();
}

/// A fixed-width integer written at `pos` reads back as the same value.
pub proof fn lemma_parse_u64_field(b: Seq<u8>, pos: int, n: u64)
    requires
        0 <= pos,
        pos + 8 <= b.len(),
        b.subrange(pos, pos + 8) == u64_field(n),
    ensures
        parse_u64(b, pos) == Ok::<(u64, int), DecodeError>((n, pos + 8)),
{
    lemma_auto_spec_u64_to_from_le_bytes();
}

/// An identity written at `pos` reads back as the same identity.
pub proof fn lemma_parse_identity_field(b: Seq<u8>, pos: int, id: Seq<u8>)
    requires
        id.len() <= MAX_IDENTITY_LEN,
        0 <= pos,
        pos + identity_field(id).len() <= b.len(),
        b.subrange(pos, pos + identity_field(id).len()) == identity_field(id),
    ensures
        parse_identity(b, pos) == Ok::<(Seq<u8>, int), DecodeError>((id, pos + 1 + id.len())),
{
    assert(b[pos] == identity_field(id)[0]);
    assert(b.subrange(pos + 1, pos + 1 + id.len()) =~= id) by {
        assert forall|j: int| 0 <= j < id.len() implies b.subrange(pos + 1, pos + 1 + id.len())[j]
            == id[j] by {
            assert(b[pos + 1 + j] == b.subrange(pos, pos + identity_field(id).len())[1 + j]);
        }
    }
}

/// A flag written at `pos` reads back as the same flag.
pub proof fn lemma_parse_flag_field(b: Seq<u8>, pos: int, f: bool)
    requires
        0 <= pos,
        pos + 1 <= b.len(),
        b.subrange(pos, pos + 1) == flag_field(f),
    ensures
        parse_flag(b, pos) == Ok::<(bool, int), DecodeError>((f, pos + 1)),
{
    assert(b[pos] == b.subrange(pos, pos + 1)[0]);
}

/// A byte written at `pos` reads back as the same byte.
pub proof fn lemma_parse_u8_field(b: Seq<u8>, pos: int, v: u8)
    requires
        0 <= pos,
        pos + 1 <= b.len(),
        b.subrange(pos, pos + 1) == seq![v],
    ensures
        parse_u8(b, pos) == Ok::<(u8, int), DecodeError>((v, pos + 1)),
{
    assert(b[pos] == b.subrange(pos, pos + 1)[0]);
}

/// An optional text field written at `pos` reads back as the same value.
pub proof fn lemma_parse_opt_text_field(b: Seq<u8>, pos: int, o: Option<Seq<char>>)
    requires
        opt_text_ok(o),
        0 <= pos,
        pos + opt_text_field(o).len() <= b.len(),
        b.subrange(pos, pos + opt_text_field(o).len()) == opt_text_field(o),
    ensures
        parse_opt_text(b, pos) == Ok::<(Option<Seq<char>>, int), DecodeError>(
            (o, pos + opt_text_field(o).len()),
        ),
{
    let f = opt_text_field(o);
    assert(b[pos] == b.subrange(pos, pos + f.len())[0]);
    if let Some(s) = o {
        let t = text_field(s);
        assert(b.subrange(pos + 1, pos + 1 + t.len()) =~= t) by {
            assert forall|j: int| 0 <= j < t.len() implies b.subrange(pos + 1, pos + 1 + t.len())[j]
                == t[j] by {
                assert(b[pos + 1 + j] == b.subrange(pos, pos + f.len())[1 + j]);
            }
        }
        lemma_parse_text_field(b, pos + 1, s);
    }
}

/// An optional integer field written at `pos` reads back as the same value.
pub proof fn lemma_parse_opt_u64_field(b: Seq<u8>, pos: int, o: Option<u64>)
    requires
        0 <= pos,
        pos + opt_u64_field(o).len() <= b.len(),
        b.subrange(pos, pos + opt_u64_field(o).len()) == opt_u64_field(o),
    ensures
        parse_opt_u64(b, pos) == Ok::<(Option<u64>, int), DecodeError>(
            (o, pos + opt_u64_field(o).len()),
        ),
{
    let f = opt_u64_field(o);
    assert(b[pos] == b.subrange(pos, pos + f.len())[0]);
    if let Some(n) = o {
        lemma_u64_field_len(n);
        let t = u64_field(n);
        assert(b.subrange(pos + 1, pos + 9) =~= t) by {
            assert forall|j: int| 0 <= j < 8 implies b.subrange(pos + 1, pos + 9)[j] == t[j] by {
                assert(b[pos + 1 + j] == b.subrange(pos, pos + f.len())[1 + j]);
            }
        }
        lemma_parse_u64_field(b, pos + 1, n);
    }
}

/// An optional identity field written at `pos` reads back as the same value.
pub proof fn lemma_parse_opt_identity_field(b: Seq<u8>, pos: int, o: Option<Seq<u8>>)
    requires
        o matches Some(id) ==> id.len() <= MAX_IDENTITY_LEN,
        0 <= pos,
        pos + opt_identity_field(o).len() <= b.len(),
        b.subrange(pos, pos + opt_identity_field(o).len()) == opt_identity_field(o),
    ensures
        parse_opt_identity(b, pos) == Ok::<(Option<Seq<u8>>, int), DecodeError>(
            (o, pos + opt_identity_field(o).len()),
        ),
{
    let f = opt_identity_field(o);
    assert(b[pos] == b.subrange(pos, pos + f.len())[0]);
    if let Some(id) = o {
        let t = identity_field(id);
        assert(b.subrange(pos + 1, pos + 1 + t.len()) =~= t) by {
            assert forall|j: int| 0 <= j < t.len() implies b.subrange(pos + 1, pos + 1 + t.len())[j]
                == t[j] by {
                assert(b[pos + 1 + j] == b.subrange(pos, pos + f.len())[1 + j]);
            }
        }
        lemma_parse_identity_field(b, pos + 1, id);
    }
}

/// Relies on `String::from_utf8`: it succeeds exactly on valid UTF-8, and
/// then holds the characters that the bytes encode.
#[verifier::external_body]
pub(crate) fn string_from_utf8(bytes: Vec<u8>) -> (r: Option<String>)
    ensures
        r is Some <==> valid_utf8(bytes@),
        r is Some ==> r->Some_0@ == decode_utf8(bytes@),
{
    String::from_utf8(bytes).ok()
}

/// Whether the text can be carried by a text field.
pub fn is_text_ok(s: &str) -> (r: bool)
    ensures
        r == text_ok(s@),
{
    let b = s.as_bytes();
    let mut i: usize = 0;
    while i < b.len()
        invariant
            b@ == encode_utf8(s@),
            i <= b@.len(),
            forall|j: int| 0 <= j < i ==> b@[j] != 0,
        decreases b@.len() - i,
    {
        if b[i] == 0 {
            assert(b@[i as int] == 0);
            return false;
        }
        i = i + 1;
    }
    assert(!encode_utf8(s@).contains(0u8)) by {
        if encode_utf8(s@).contains(0u8) {
            let k = choose|k: int| 0 <= k < b@.len() && b@[k] == 0u8;
        }
    }
    true
}

proof fn lemma_find_zero_bounds(b: Seq<u8>, pos: int)
    ensures
        find_zero(b, pos) matches Some(z) ==> pos <= z < b.len(),
    decreases b.len() - pos,
{
    if 0 <= pos < b.len() && b[pos] != 0 {
        lemma_find_zero_bounds(b, pos + 1);
    }
}

/// A text field read successfully ends after its start and within the buffer.
pub broadcast proof fn lemma_parse_text_bounds(b: Seq<u8>, pos: int)
    ensures
        #[trigger] parse_text(b, pos) matches Ok((_, p)) ==> pos < p <= b.len(),
{
    lemma_find_zero_bounds(b, pos);
}

proof fn lemma_find_zero_first(b: Seq<u8>, pos: int)
    ensures
        find_zero(b, pos) matches Some(z) ==> forall|j: int| pos <= j < z ==> b[j] != 0,
    decreases b.len() - pos,
{
    if 0 <= pos < b.len() && b[pos] != 0 {
        lemma_find_zero_first(b, pos + 1);
    }
}

/// A text field read successfully holds a text that the codec carries exactly.
pub broadcast proof fn lemma_parse_text_ok(b: Seq<u8>, pos: int)
    ensures
        #[trigger] parse_text(b, pos) matches Ok((s, _)) ==> text_ok(s),
{
    lemma_find_zero_first(b, pos);
    lemma_find_zero_bounds(b, pos);
    if let Some(z) = find_zero(b, pos) {
        let raw = b.subrange(pos, z);
        if valid_utf8(raw) {
            decode_utf8_encode_utf8(raw);
            if encode_utf8(decode_utf8(raw)).contains(0u8) {
                let k = choose|k: int| 0 <= k < raw.len() && raw[k] == 0u8;
                assert(b[pos + k] == raw[k]);
            }
        }
    }
}

/// Appends a text field.
pub fn write_text(out: &mut Vec<u8>, s: &str)
    ensures
        final(out)@ == old(out)@ + text_field(s@),
{
    let mut b = slice_to_vec(s.as_bytes());
    out.append(&mut b);
    out.push(0u8);
    assert(final(out)@ =~= old(out)@ + text_field(s@));
}

/// Appends a little-endian `u64`.
pub fn write_u64(out: &mut Vec<u8>, n: u64)
    ensures
        final(out)@ == old(out)@ + u64_field(n),
{
    let mut b = u64_to_le_bytes(n);
    out.append(&mut b);
}

/// Appends a length-prefixed identity.
pub fn write_identity(out: &mut Vec<u8>, id: &[u8])
    requires
        id@.len() <= MAX_IDENTITY_LEN,
    ensures
        final(out)@ == old(out)@ + identity_field(id@),
{
    out.push(id.len() as u8);
    let mut b = slice_to_vec(id);
    out.append(&mut b);
    assert(final(out)@ =~= old(out)@ + identity_field(id@));
}

/// Appends a flag byte.
pub fn write_flag(out: &mut Vec<u8>, f: bool)
    ensures
        final(out)@ == old(out)@ + flag_field(f),
{
    if f {
        out.push(1u8);
    } else {
        out.push(0u8);
    }
    assert(final(out)@ =~= old(out)@ + flag_field(f));
}

/// Appends a single byte.
pub fn write_u8(out: &mut Vec<u8>, v: u8)
    ensures
        final(out)@ == old(out)@ + seq![v],
{
    out.push(v);
    assert(final(out)@ =~= old(out)@ + seq![v]);
}

/// Reads a text field at `pos`.
pub fn read_text(b: &[u8], pos: usize) -> (r: Result<(String, usize), DecodeError>)
    ensures
        match parse_text(b@, pos as int) {
            Ok((s, p)) => r is Ok && r->Ok_0.0@ == s && r->Ok_0.1 as int == p,
            Err(e) => r == Err::<(String, usize), DecodeError>(e),
        },
{
    if pos >= b.len() {
        return Err(DecodeError::MissingTerminator);
    }
    let mut i: usize = pos;
    while i < b.len() && b[i] != 0
        invariant
            pos <= i <= b@.len(),
            find_zero(b@, pos as int) == find_zero(b@, i as int),
        decreases b@.len() - i,
    {
        i = i + 1;
    }
    if i == b.len() {
        return Err(DecodeError::MissingTerminator);
    }
    let raw = slice_to_vec(slice_subrange(b, pos, i));
    match string_from_utf8(raw) {
        Some(s) => Ok((s, i + 1)),
        None => Err(DecodeError::InvalidText),
    }
}

/// Reads one byte at `pos`.
pub fn read_u8(b: &[u8], pos: usize) -> (r: Result<(u8, usize), DecodeError>)
    ensures
        match parse_u8(b@, pos as int) {
            Ok((v, p)) => r is Ok && r->Ok_0.0 == v && r->Ok_0.1 as int == p,
            Err(e) => r == Err::<(u8, usize), DecodeError>(e),
        },
{
    if pos < b.len() {
        Ok((b[pos], pos + 1))
    } else {
        Err(DecodeError::UnexpectedEnd)
    }
}

/// Reads a flag byte at `pos`.
pub fn read_flag(b: &[u8], pos: usize) -> (r: Result<(bool, usize), DecodeError>)
    ensures
        match parse_flag(b@, pos as int) {
            Ok((v, p)) => r is Ok && r->Ok_0.0 == v && r->Ok_0.1 as int == p,
            Err(e) => r == Err::<(bool, usize), DecodeError>(e),
        },
{
    match read_u8(b, pos) {
        Ok((v, p)) => Ok((v == 1, p)),
        Err(e) => Err(e),
    }
}

/// Reads a little-endian `u64` at `pos`.
pub fn read_u64(b: &[u8], pos: usize) -> (r: Result<(u64, usize), DecodeError>)
    ensures
        match parse_u64(b@, pos as int) {
            Ok((v, p)) => r is Ok && r->Ok_0.0 == v && r->Ok_0.1 as int == p,
            Err(e) => r == Err::<(u64, usize), DecodeError>(e),
        },
{
    if pos <= b.len() && b.len() - pos >= 8 {
        let v = u64_from_le_bytes(slice_subrange(b, pos, pos + 8));
        Ok((v, pos + 8))
    } else {
        Err(DecodeError::UnexpectedEnd)
    }
}

/// Reads a length-prefixed identity at `pos`.
pub fn read_identity(b: &[u8], pos: usize) -> (r: Result<(Vec<u8>, usize), DecodeError>)
    ensures
        match parse_identity(b@, pos as int) {
            Ok((v, p)) => r is Ok && r->Ok_0.0@ == v && r->Ok_0.1 as int == p,
            Err(e) => r == Err::<(Vec<u8>, usize), DecodeError>(e),
        },
{
    if pos >= b.len() {
        return Err(DecodeError::UnexpectedEnd);
    }
    let n = b[pos] as usize;
    if n > MAX_IDENTITY_LEN {
        return Err(DecodeError::InvalidIdentity);
    }
    if b.len() - (pos + 1) < n {
        return Err(DecodeError::UnexpectedEnd);
    }
    let v = slice_to_vec(slice_subrange(b, pos + 1, pos + 1 + n));
    Ok((v, pos + 1 + n))
}

/// Appends an optional text field.
pub fn write_opt_text(out: &mut Vec<u8>, o: &Option<String>)
    ensures
        final(out)@ == old(out)@ + opt_text_field(opt_text_view(*o)),
{
    match o {
        Some(s) => {
            out.push(1u8);
            write_text(out, s.as_str());
        },
        None => {
            out.push(0u8);
        },
    }
    assert(final(out)@ =~= old(out)@ + opt_text_field(opt_text_view(*o)));
}

/// Appends an optional integer field.
pub fn write_opt_u64(out: &mut Vec<u8>, o: Option<u64>)
    ensures
        final(out)@ == old(out)@ + opt_u64_field(o),
{
    match o {
        Some(n) => {
            out.push(1u8);
            write_u64(out, n);
        },
        None => {
            out.push(0u8);
        },
    }
    assert(final(out)@ =~= old(out)@ + opt_u64_field(o));
}

/// Reads an optional text field at `pos`.
pub fn read_opt_text(b: &[u8], pos: usize) -> (r: Result<(Option<String>, usize), DecodeError>)
    ensures
        match parse_opt_text(b@, pos as int) {
            Ok((o, p)) => r is Ok && opt_text_view(r->Ok_0.0) == o && r->Ok_0.1 as int == p,
            Err(e) => r == Err::<(Option<String>, usize), DecodeError>(e),
        },
{
    let (f, p) = match read_flag(b, pos) {
        Ok(x) => x,
        Err(e) => return Err(e),
    };
    if f {
        match read_text(b, p) {
            Ok((s, q)) => Ok((Some(s), q)),
            Err(e) => Err(e),
        }
    } else {
        Ok((None, p))
    }
}

/// Reads an optional integer field at `pos`.
pub fn read_opt_u64(b: &[u8], pos: usize) -> (r: Result<(Option<u64>, usize), DecodeError>)
    ensures
        match parse_opt_u64(b@, pos as int) {
            Ok((o, p)) => r is Ok && r->Ok_0.0 == o && r->Ok_0.1 as int == p,
            Err(e) => r == Err::<(Option<u64>, usize), DecodeError>(e),
        },
{
    let (f, p) = match read_flag(b, pos) {
        Ok(x) => x,
        Err(e) => return Err(e),
    };
    if f {
        match read_u64(b, p) {
            Ok((n, q)) => Ok((Some(n), q)),
            Err(e) => Err(e),
        }
    } else {
        Ok((None, p))
    }
}

/// Reads an optional identity field at `pos`.
pub fn read_opt_identity(b: &[u8], pos: usize) -> (r: Result<(Option<Vec<u8>>, usize), DecodeError>)
    ensures
        match parse_opt_identity(b@, pos as int) {
            Ok((o, p)) => r is Ok && r->Ok_0.1 as int == p && match o {
                Some(id) => r->Ok_0.0 matches Some(v) && v@ == id,
                None => r->Ok_0.0 is None,
            },
            Err(e) => r == Err::<(Option<Vec<u8>>, usize), DecodeError>(e),
        },
{
    let (f, p) = match read_flag(b, pos) {
        Ok(x) => x,
        Err(e) => return Err(e),
    };
    if f {
        match read_identity(b, p) {
            Ok((v, q)) => Ok((Some(v), q)),
            Err(e) => Err(e),
        }
    } else {
        Ok((None, p))
    }
}

} // verus!
