use vstd::prelude::*;
use vstd::slice::slice_subrange;
use rustls_pemfile::Item;
use crate::certificate::bytes_equal;
use crate::pki_data::{empty_pki_data, merged, ParsedPkiData, PkiDataView};

verus! {

/// The kind of a PEM section, by its label.
#[derive(PartialEq, Eq, Structural, Clone, Copy, Debug)]
pub enum PemSectionKind {
    /// "CERTIFICATE"
    Certificate,
    /// "PUBLIC KEY"
    PublicKey,
    /// "RSA PRIVATE KEY"
    Pkcs1Key,
    /// "PRIVATE KEY"
    Pkcs8Key,
    /// "EC PRIVATE KEY"
    Sec1Key,
    /// "X509 CRL"
    Crl,
    /// "CERTIFICATE REQUEST"
    Csr,
    /// A kind the PEM reader knows but this library does not take.
    Other,
}

/// What reading the next PEM section of a byte stream gave.
#[derive(PartialEq, Eq, Structural, Clone, Copy, Debug)]
pub enum PemOutcome {
    /// A section of the given kind.
    Section(PemSectionKind),
    /// No further section.
    End,
    /// Broken framing or base64.
    Malformed,
}

/// Why a PEM stream could not be decoded.
#[derive(PartialEq, Eq, Structural, Clone, Copy, Debug)]
pub enum PemParseError {
    /// A section of a kind this library does not take.
    UnknownDerEncodedItem,
    /// The stream's framing or encoding is broken.
    FailedToReadDerEncodedItem,
}

/// What rustls-pemfile reads first from `input`: the outcome, the section's
/// DER bytes (empty unless a section was read), and the length of the input
/// that follows the section (zero unless a section was read).
pub uninterp spec fn pem_next(input: Seq<u8>) -> (PemOutcome, Seq<u8>, nat);

/// Relies on rustls-pemfile's `read_one_from_slice`, which skips sections of
/// unknown labels and returns the next known one with the remainder of the
/// input. The remainder is a suffix of the input, shorter than it, since at
/// least the section's BEGIN and END lines were consumed. This reads the
/// outcome and the remainder's length; `read_pem_der` reads the bytes.
#[verifier::external_body]
fn read_pem_outcome(input: &[u8]) -> (r: (PemOutcome, usize))
    ensures
        r.0 == pem_next(input@).0,
        r.1 as nat == pem_next(input@).2,
        r.0 is Section ==> r.1 < input@.len(),
{
    let (kind, rest) = match rustls_pemfile::read_one_from_slice(input) {
        Ok(Some((item, rest))) => (match item {
            Item::X509Certificate(_) => PemSectionKind::Certificate,
            Item::SubjectPublicKeyInfo(_) => PemSectionKind::PublicKey,
            Item::Pkcs1Key(_) => PemSectionKind::Pkcs1Key,
            Item::Pkcs8Key(_) => PemSectionKind::Pkcs8Key,
            Item::Sec1Key(_) => PemSectionKind::Sec1Key,
            Item::Crl(_) => PemSectionKind::Crl,
            Item::Csr(_) => PemSectionKind::Csr,
            _ => PemSectionKind::Other,
        }, rest.len()),
        Ok(None) => return (PemOutcome::End, 0),
        Err(_) => return (PemOutcome::Malformed, 0),
    };
    (PemOutcome::Section(kind), rest)
}

/// Relies on rustls-pemfile's `read_one_from_slice`, as `read_pem_outcome`
/// does: the DER bytes of the section read, whatever its kind.
#[verifier::external_body]
fn read_pem_der(input: &[u8]) -> (r: Vec<u8>)
    ensures
        r@ == pem_next(input@).1,
{
    match rustls_pemfile::read_one_from_slice(input) {
        Ok(Some((Item::X509Certificate(c), _))) => c.to_vec(),
        Ok(Some((Item::SubjectPublicKeyInfo(k), _))) => k.to_vec(),
        Ok(Some((Item::Pkcs1Key(k), _))) => k.secret_pkcs1_der().to_vec(),
        Ok(Some((Item::Pkcs8Key(k), _))) => k.secret_pkcs8_der().to_vec(),
        Ok(Some((Item::Sec1Key(k), _))) => k.secret_sec1_der().to_vec(),
        Ok(Some((Item::Crl(c), _))) => c.to_vec(),
        Ok(Some((Item::Csr(c), _))) => c.to_vec(),
        _ => Vec::new(),
    }
}

/// `set` with one decoded section appended to the sequence of its kind.
pub open spec fn with_section(set: PkiDataView, kind: PemSectionKind, der: Seq<u8>) -> Result<
    PkiDataView,
    PemParseError,
> {
    match kind {
        PemSectionKind::Certificate => Ok(PkiDataView { x509: set.x509.push(der), ..set }),
        PemSectionKind::Pkcs1Key => Ok(PkiDataView { pkc1: set.pkc1.push(der), ..set }),
        PemSectionKind::Pkcs8Key => Ok(PkiDataView { pkcs8: set.pkcs8.push(der), ..set }),
        PemSectionKind::Sec1Key => Ok(PkiDataView { sec1: set.sec1.push(der), ..set }),
        PemSectionKind::Crl => Ok(PkiDataView { crls: set.crls.push(der), ..set }),
        PemSectionKind::Csr => Ok(PkiDataView { csrs: set.csrs.push(der), ..set }),
        _ => Err(PemParseError::UnknownDerEncodedItem),
    }
}

/// The bytes `-----BEGIN ` that open a PEM section line.
pub open spec fn begin_marker() -> Seq<u8> {
    seq![45u8, 45u8, 45u8, 45u8, 45u8, 66u8, 69u8, 71u8, 73u8, 78u8, 32u8]
}

/// A line of `b` starts at `i` with a section's BEGIN marker.
pub open spec fn begins_at(b: Seq<u8>, i: int) -> bool {
    &&& 0 <= i
    &&& i + 11 <= b.len()
    &&& (i == 0 || b[i - 1] == 10u8 || b[i - 1] == 13u8)
    &&& b.subrange(i, i + 11) == begin_marker()
}

/// The number of BEGIN lines of `b` that start before `n`.
pub open spec fn begin_lines_before(b: Seq<u8>, n: int) -> nat
    decreases n,
{
    if n <= 0 {
        0
    } else {
        begin_lines_before(b, n - 1) + if begins_at(b, n - 1) {
            1nat
        } else {
            0nat
        }
    }
}

/// The number of BEGIN lines of `b`.
pub open spec fn begin_lines(b: Seq<u8>) -> nat {
    begin_lines_before(b, b.len() as int)
}

/// Counts the BEGIN lines of `b`, the lines that open a PEM section.
pub fn count_begin_lines(b: &[u8]) -> (r: usize)
    ensures
        r == begin_lines(b@),
{
    let marker: Vec<u8> = vec![45u8, 45u8, 45u8, 45u8, 45u8, 66u8, 69u8, 71u8, 73u8, 78u8, 32u8];
    assert(marker@ =~= begin_marker());
    let mut count: usize = 0;
    let mut i: usize = 0;
    while i < b.len()
        invariant
            0 <= i <= b@.len(),
            marker@ == begin_marker(),
            count == begin_lines_before(b@, i as int),
            count <= i,
        decreases b@.len() - i,
    {
        let at_line_start = i == 0 || b[i - 1] == 10u8 || b[i - 1] == 13u8;
        let found = if at_line_start && b.len() - i >= 11 {
            let window = slice_subrange(b, i, i + 11);
            bytes_equal(window, marker.as_slice())
        } else {
            false
        };
        assert(found == begins_at(b@, i as int));
        if found {
            count = count + 1;
        }
        i = i + 1;
    }
    count
}

/// Decoding `input` after `set` has been filled: sections are taken in
/// order until the input ends; a malformed stream or a section of a kind not
/// taken stops the decoding with an error. The PEM reader passes over
/// sections whose label it does not take; a BEGIN line in the bytes it
/// passed over (more than the one opening the section read, or any at all
/// when no section follows) is therefore also a section of a kind not taken.
pub open spec fn pem_decode_into(set: PkiDataView, input: Seq<u8>) -> Result<
    PkiDataView,
    PemParseError,
>
    decreases input.len(),
{
    let (outcome, der, rest_len) = pem_next(input);
    match outcome {
        PemOutcome::End => if begin_lines(input) > 0 {
            Err(PemParseError::UnknownDerEncodedItem)
        } else {
            Ok(set)
        },
        PemOutcome::Malformed => Err(PemParseError::FailedToReadDerEncodedItem),
        PemOutcome::Section(kind) => if rest_len <= input.len() && begin_lines(
            input.subrange(0, input.len() - rest_len),
        ) > 1 {
            Err(PemParseError::UnknownDerEncodedItem)
        } else {
            match with_section(set, kind, der) {
            Err(e) => Err(e),
            Ok(next) => if rest_len < input.len() {
                pem_decode_into(next, input.subrange(input.len() - rest_len, input.len() as int))
            } else {
                Ok(next)
            },
        }
        },
    }
}

/// The object set decoded from a whole PEM stream.
pub open spec fn pem_decode(input: Seq<u8>) -> Result<PkiDataView, PemParseError> {
    pem_decode_into(empty_pki_data(), input)
}

/// Appends one decoded section to the sequence of its kind; a section of a
/// kind not taken is an error and leaves `set` as it was.
pub fn add_pem_section(set: &mut ParsedPkiData, kind: PemSectionKind, der: Vec<u8>) -> (r: Result<
    (),
    PemParseError,
>)
    ensures
        match with_section(old(set)@, kind, der@) {
            Ok(v) => r is Ok && final(set)@ == v,
            Err(e) => r == Err::<(), PemParseError>(e) && final(set)@ == old(set)@,
        },
{
    let ghost s = set@;
    match kind {
        PemSectionKind::Certificate => set.x509.push(der),
        PemSectionKind::Pkcs1Key => set.pkc1.push(der),
        PemSectionKind::Pkcs8Key => set.pkcs8.push(der),
        PemSectionKind::Sec1Key => set.sec1.push(der),
        PemSectionKind::Crl => set.crls.push(der),
        PemSectionKind::Csr => set.csrs.push(der),
        _ => return Err(PemParseError::UnknownDerEncodedItem),
    }
    assert(set@ =~= with_section(s, kind, der@)->Ok_0);
    Ok(())
}

/// Decodes every PEM section of `input` into a fresh object set.
pub fn decode_pem(input: &[u8]) -> (r: Result<ParsedPkiData, PemParseError>)
    ensures
        match pem_decode(input@) {
            Ok(v) => r matches Ok(d) && d@ == v,
            Err(e) => r matches Err(x) && x == e,
        },
{
    let mut delta = ParsedPkiData::new();
    let mut rest: &[u8] = input;
    loop
        invariant
            pem_decode_into(delta@, rest@) == pem_decode(input@),
        decreases rest@.len(),
    {
        let (outcome, rest_len) = read_pem_outcome(rest);
        match outcome {
            PemOutcome::End => {
                if count_begin_lines(rest) > 0 {
                    return Err(PemParseError::UnknownDerEncodedItem);
                }
                return Ok(delta);
            },
            PemOutcome::Malformed => return Err(PemParseError::FailedToReadDerEncodedItem),
            PemOutcome::Section(kind) => {
                let ghost before = rest@;
                let consumed = slice_subrange(rest, 0, rest.len() - rest_len);
                assert(consumed@ =~= before.subrange(0, before.len() - rest_len));
                if count_begin_lines(consumed) > 1 {
                    return Err(PemParseError::UnknownDerEncodedItem);
                }
                let der = read_pem_der(rest);
                match add_pem_section(&mut delta, kind, der) {
                    Err(e) => return Err(e),
                    Ok(()) => {},
                }
                rest = slice_subrange(rest, rest.len() - rest_len, rest.len());
                assert(rest@ =~= before.subrange(
                    before.len() - rest_len,
                    before.len() as int,
                ));
            },
        }
    }
}

/// Reads PEM streams into object sets.
pub struct PkiParser {}

impl PkiParser {
    pub fn new() -> (r: PkiParser) {
        PkiParser {  }
    }

    /// Decodes `input` and, when the whole stream decodes, merges what it
    /// held into `source`; on an error `source` is left as it was.
    pub fn parse_pem(&mut self, source: &mut ParsedPkiData, input: &[u8]) -> (r: Result<
        (),
        PemParseError,
    >)
        ensures
            match pem_decode(input@) {
                Ok(v) => r is Ok && final(source)@ == merged(old(source)@, v),
                Err(e) => r == Err::<(), PemParseError>(e) && final(source)@ == old(source)@,
            },
    {
        match decode_pem(input) {
            Ok(mut delta) => {
                source.merge(&mut delta);
                Ok(())
            },
            Err(e) => Err(e),
        }
    }
}

} // verus!
