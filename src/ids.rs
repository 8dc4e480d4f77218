//! Identifiers: per-kind counters kept in durable memory, and ids made of a
//! kind prefix and a zero-padded, six-digit sequence number.
use crate::codec::text_ok;
use crate::store::{counter_entries, CounterMap};
use vstd::prelude::*;
use vstd::utf8::*;

verus! {

broadcast use {encode_utf8_valid_utf8, encode_utf8_decode_utf8};

/// Width of the numeric part of an id.
pub const ID_DIGITS: usize = 6;

/// The value a counter has reached; zero before its first use.
pub open spec fn counter_value(m: Map<Seq<char>, u64>, name: Seq<char>) -> u64 {
    if m.contains_key(name) {
        m[name]
    } else {
        0
    }
}

/// ASCII decimal digits of `n`, most significant first.
pub open spec fn decimal_bytes(n: nat) -> Seq<u8>
    decreases n,
{
    if n < 10 {
        seq![(48 + n) as u8]
    } else {
        decimal_bytes(n / 10).push((48 + n % 10) as u8)
    }
}

/// Decimal digits of `n`, left-padded with zeros to `width`.
pub open spec fn padded_decimal(n: nat, width: nat) -> Seq<u8> {
    let d = decimal_bytes(n);
    if d.len() < width {
        Seq::new((width - d.len()) as nat, |i: int| 48u8) + d
    } else {
        d
    }
}

/// The characters of an ASCII byte string.
pub open spec fn ascii_text(b: Seq<u8>) -> Seq<char> {
    Seq::new(b.len(), |i: int| b[i] as char)
}

/// The id with the given prefix and sequence number.
pub open spec fn id_text(prefix: Seq<char>, n: nat) -> Seq<char> {
    prefix + ascii_text(padded_decimal(n, ID_DIGITS as nat))
}

/// Counter name and id prefix of each kind of record.
pub open spec fn document_counter() -> Seq<char> {
    seq!['d', 'o', 'c', 'u', 'm', 'e', 'n', 't']
}

pub open spec fn loan_counter() -> Seq<char> {
    seq!['l', 'o', 'a', 'n']
}

pub open spec fn mapping_counter() -> Seq<char> {
    seq!['m', 'a', 'p', 'p', 'i', 'n', 'g']
}

pub open spec fn verification_counter() -> Seq<char> {
    seq!['v', 'e', 'r', 'i', 'f', 'i', 'c', 'a', 't', 'i', 'o', 'n']
}

pub open spec fn document_prefix() -> Seq<char> {
    seq!['D', 'O', 'C', '-']
}

pub open spec fn loan_prefix() -> Seq<char> {
    seq!['L', 'O', 'A', 'N', '-']
}

pub open spec fn mapping_prefix() -> Seq<char> {
    seq!['M', 'A', 'P', '-']
}

pub open spec fn verification_prefix() -> Seq<char> {
    seq!['V', 'E', 'R', '-']
}

proof fn lemma_decimal_digits(n: nat)
    ensures
        decimal_bytes(n).len() >= 1,
        forall|i: int| 0 <= i < decimal_bytes(n).len() ==> 48 <= #[trigger] decimal_bytes(n)[i] <= 57,
    decreases n,
{
    if n >= 10 {
        lemma_decimal_digits(n / 10);
    }
}

proof fn lemma_padded_digits(n: nat)
    ensures
        forall|i: int|
            0 <= i < padded_decimal(n, ID_DIGITS as nat).len() ==> 48 <= #[trigger] padded_decimal(
                n,
                ID_DIGITS as nat,
            )[i] <= 57,
{
    lemma_decimal_digits(n);
}

/// An id whose prefix is printable ASCII is a text that records can carry.
pub proof fn lemma_id_text_ok(prefix: Seq<char>, n: nat)
    requires
        forall|i: int| 0 <= i < prefix.len() ==> ' ' <= #[trigger] prefix[i] <= '~',
    ensures
        text_ok(id_text(prefix, n)),
{
    let t = id_text(prefix, n);
    let p = padded_decimal(n, ID_DIGITS as nat);
    lemma_padded_digits(n);
    assert forall|i: int| 0 <= i < t.len() implies '\0' <= #[trigger] t[i] <= '\u{7f}' && t[i]
        != '\0' by {
        if i >= prefix.len() {
            let k = i - prefix.len();
            assert(48 <= p[k] <= 57);
            assert(t[i] == p[k] as char);
        }
    }
    assert(is_ascii_chars(t));
    is_ascii_chars_encode_utf8(t);
    if encode_utf8(t).contains(0u8) {
        let k = choose|k: int| 0 <= k < encode_utf8(t).len() && encode_utf8(t)[k] == 0u8;
        assert(t[k] as u8 == 0u8);
    }
}

/// Advances the named counter and returns its new value.
pub fn get_next_id(counters: &mut CounterMap, counter_name: &str) -> (r: u64)
    requires
        counter_value(counter_entries(*old(counters)), counter_name@) < u64::MAX,
    ensures
        r == counter_value(counter_entries(*old(counters)), counter_name@) + 1,
        counter_entries(*final(counters)) == counter_entries(*old(counters)).insert(
            counter_name@,
            r,
        ),
{
    let name = String::from_str(counter_name);
    let current = match counters.get(&name) {
        Some(v) => v,
        None => 0,
    };
    let id = current + 1;
    counters.insert(name, id);
    id
}

fn push_decimal(out: &mut Vec<u8>, n: u64)
    ensures
        final(out)@ == old(out)@ + decimal_bytes(n as nat),
    decreases n,
{
    if n >= 10 {
        push_decimal(out, n / 10);
    }
    out.push((48 + n % 10) as u8);
    assert(final(out)@ =~= old(out)@ + decimal_bytes(n as nat));
}

/// The string whose characters are the given ASCII bytes.
fn ascii_string(bytes: Vec<u8>) -> (r: String)
    requires
        forall|i: int| 0 <= i < bytes@.len() ==> #[trigger] bytes@[i] < 128,
    ensures
        r@ == ascii_text(bytes@),
{
    let ghost t = ascii_text(bytes@);
    proof {
        assert(is_ascii_chars(t));
        is_ascii_chars_encode_utf8(t);
        assert forall|i: int| 0 <= i < bytes@.len() implies encode_utf8(t)[i] == bytes@[i] by {
            assert(t[i] as u8 == bytes@[i]);
        }
        assert(encode_utf8(t) =~= bytes@);
    }
    match crate::codec::string_from_utf8(bytes) {
        Some(s) => s,
        None => String::new(),
    }
}

/// The id made of the prefix and the sequence number.
pub fn format_id(prefix: &str, n: u64) -> (r: String)
    ensures
        r@ == id_text(prefix@, n as nat),
{
    let mut digits: Vec<u8> = Vec::new();
    push_decimal(&mut digits, n);
    let mut padded: Vec<u8> = Vec::new();
    while padded.len() + digits.len() < ID_DIGITS
        invariant
            digits@ == decimal_bytes(n as nat),
            padded@.len() + digits@.len() <= ID_DIGITS || padded@.len() == 0,
            forall|i: int| 0 <= i < padded@.len() ==> #[trigger] padded@[i] == 48u8,
        decreases ID_DIGITS - padded@.len(),
    {
        padded.push(48u8);
    }
    let ghost pad_len = padded@.len();
    padded.append(&mut digits);
    proof {
        lemma_decimal_digits(n as nat);
        assert(padded@ =~= padded_decimal(n as nat, ID_DIGITS as nat));
        lemma_padded_digits(n as nat);
    }
    let tail = ascii_string(padded);
    let r = String::from_str(prefix).concat(tail.as_str());
    r
}

/// The id that the next document gets.
pub fn generate_doc_id(counters: &mut CounterMap) -> (r: String)
    requires
        counter_value(counter_entries(*old(counters)), document_counter()) < u64::MAX,
    ensures
        r@ == id_text(
            document_prefix(),
            (counter_value(counter_entries(*old(counters)), document_counter()) + 1) as nat,
        ),
        counter_entries(*final(counters)) == counter_entries(*old(counters)).insert(
            document_counter(),
            (counter_value(counter_entries(*old(counters)), document_counter()) + 1) as u64,
        ),
        text_ok(r@),
{
    proof {
        reveal_strlit("document");
        reveal_strlit("DOC-");
        assert("document"@ =~= document_counter());
        assert("DOC-"@ =~= document_prefix());
    }
    let n = get_next_id(counters, "document");
    proof {
        lemma_id_text_ok(document_prefix(), n as nat);
    }
    format_id("DOC-", n)
}

/// The id that the next loan gets.
pub fn generate_loan_id(counters: &mut CounterMap) -> (r: String)
    requires
        counter_value(counter_entries(*old(counters)), loan_counter()) < u64::MAX,
    ensures
        r@ == id_text(
            loan_prefix(),
            (counter_value(counter_entries(*old(counters)), loan_counter()) + 1) as nat,
        ),
        counter_entries(*final(counters)) == counter_entries(*old(counters)).insert(
            loan_counter(),
            (counter_value(counter_entries(*old(counters)), loan_counter()) + 1) as u64,
        ),
        text_ok(r@),
{
    proof {
        reveal_strlit("loan");
        reveal_strlit("LOAN-");
        assert("loan"@ =~= loan_counter());
        assert("LOAN-"@ =~= loan_prefix());
    }
    let n = get_next_id(counters, "loan");
    proof {
        lemma_id_text_ok(loan_prefix(), n as nat);
    }
    format_id("LOAN-", n)
}

/// The id that the next mapping gets.
pub fn generate_mapping_id(counters: &mut CounterMap) -> (r: String)
    requires
        counter_value(counter_entries(*old(counters)), mapping_counter()) < u64::MAX,
    ensures
        r@ == id_text(
            mapping_prefix(),
            (counter_value(counter_entries(*old(counters)), mapping_counter()) + 1) as nat,
        ),
        counter_entries(*final(counters)) == counter_entries(*old(counters)).insert(
            mapping_counter(),
            (counter_value(counter_entries(*old(counters)), mapping_counter()) + 1) as u64,
        ),
        text_ok(r@),
{
    proof {
        reveal_strlit("mapping");
        reveal_strlit("MAP-");
        assert("mapping"@ =~= mapping_counter());
        assert("MAP-"@ =~= mapping_prefix());
    }
    let n = get_next_id(counters, "mapping");
    proof {
        lemma_id_text_ok(mapping_prefix(), n as nat);
    }
    format_id("MAP-", n)
}

/// The id that the next customs verification gets.
pub fn generate_verification_id(counters: &mut CounterMap) -> (r: String)
    requires
        counter_value(counter_entries(*old(counters)), verification_counter()) < u64::MAX,
    ensures
        r@ == id_text(
            verification_prefix(),
            (counter_value(counter_entries(*old(counters)), verification_counter()) + 1) as nat,
        ),
        counter_entries(*final(counters)) == counter_entries(*old(counters)).insert(
            verification_counter(),
            (counter_value(counter_entries(*old(counters)), verification_counter()) + 1) as u64,
        ),
        text_ok(r@),
{
    proof {
        reveal_strlit("verification");
        reveal_strlit("VER-");
        assert("verification"@ =~= verification_counter());
        assert("VER-"@ =~= verification_prefix());
    }
    let n = get_next_id(counters, "verification");
    proof {
        lemma_id_text_ok(verification_prefix(), n as nat);
    }
    format_id("VER-", n)
}

} // verus!
