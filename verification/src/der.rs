//! Minimal DER / X.509 parsing: extract the SubjectPublicKeyInfo field
//! from a DER-encoded certificate by walking the TLV structure to the
//! seventh field of tbsCertificate. The complete SPKI TLV (tag, length
//! header and value) is what certificate pinning hashes.

use vstd::prelude::*;

verus! {

/// DER tag for SEQUENCE.
pub const TAG_SEQUENCE: u8 = 0x30;

/// DER tag for INTEGER.
pub const TAG_INTEGER: u8 = 0x02;

/// DER tag for the `[0] EXPLICIT` version field.
pub const TAG_CONTEXT_0: u8 = 0xA0;

/// Errors from DER parsing.
#[derive(Clone, Copy, PartialEq, Eq, Structural, Debug)]
pub enum DerError {
    /// Unexpected end of input.
    Truncated,
    /// Expected a different tag.
    UnexpectedTag,
    /// The length encoding is malformed.
    BadLength,
}

/// The big-endian integer held in `s`.
pub open spec fn spec_be(s: Seq<u8>) -> int
    decreases s.len(),
{
    if s.len() == 0 {
        0
    } else {
        spec_be(s.drop_last()) * 256 + s.last()
    }
}

/// A parsed DER length field: the value length and the header bytes
/// consumed, or nothing when the field is truncated or malformed.
pub open spec fn spec_parse_length(s: Seq<u8>) -> Option<(int, int)> {
    if s.len() == 0 {
        None
    } else {
        let first = s[0];
        if first < 0x80 {
            Some((first as int, 1))
        } else if first == 0x80 {
            None
        } else {
            let num = (first & 0x7F) as int;
            if num > 4 || s.len() < 1 + num {
                None
            } else {
                Some((spec_be(s.subrange(1, 1 + num)), 1 + num))
            }
        }
    }
}

/// The total size of the TLV element at the front of `s` (tag, length
/// header and value), when one fits.
pub open spec fn spec_tlv_total(s: Seq<u8>) -> Option<int> {
    if s.len() == 0 {
        None
    } else {
        match spec_parse_length(s.subrange(1, s.len() as int)) {
            Some((vlen, hdr)) => if 1 + hdr + vlen <= s.len() {
                Some(1 + hdr + vlen)
            } else {
                None
            },
            None => None,
        }
    }
}

/// A parsed TLV element, as offsets into the input.
struct Tlv {
    tag: u8,
    /// Offset of the first value byte.
    value_start: usize,
    /// Length of the value.
    value_len: usize,
    /// Total bytes consumed: tag, length header and value.
    total_len: usize,
}

/// Parse a DER length field. Returns the value length and the header
/// bytes consumed.
pub fn parse_length(data: &[u8]) -> (r: Result<(usize, usize), DerError>)
    ensures
        match r {
            Ok((vlen, hdr)) => spec_parse_length(data@) == Some((vlen as int, hdr as int)),
            Err(DerError::Truncated) => data@.len() == 0 || (data@[0] > 0x80 && (data@[0] & 0x7F)
                <= 4 && data@.len() < 1 + (data@[0] & 0x7F)),
            Err(DerError::BadLength) => data@.len() > 0 && (data@[0] == 0x80 || (data@[0] > 0x80
                && (data@[0] & 0x7F) > 4)),
            Err(DerError::UnexpectedTag) => false,
        },
        r is Err <==> spec_parse_length(data@) is None,
{
    if data.len() == 0 {
        return Err(DerError::Truncated);
    }
    let first = data[0];
    if first < 0x80 {
        Ok((first as usize, 1))
    } else if first == 0x80 {
        return Err(DerError::BadLength);
    } else {
        let num = (first & 0x7F) as usize;
        proof {
            assert(first > 0x80 ==> (first & 0x7F) >= 1) by (bit_vector);
            assert((first & 0x7F) <= 0x7F) by (bit_vector);
        }
        if num > 4 {
            return Err(DerError::BadLength);
        }
        if data.len() < 1 + num {
            return Err(DerError::Truncated);
        }

        let mut len: usize = 0;
        let mut i: usize = 0;
        while i < num
            invariant
                i <= num,
                num <= 4,
                1 + num <= data@.len(),
                len == spec_be(data@.subrange(1, 1 + i as int)),
                len < 0x1_0000_0000,
                i < 4 ==> len < 0x100_0000,
                i < 3 ==> len < 0x1_0000,
                i < 2 ==> len < 0x100,
            decreases num - i,
        {
            proof {
                assert(data@.subrange(1, 1 + (i + 1)).drop_last() =~= data@.subrange(
                    1,
                    1 + i as int,
                ));
            }
            let ghost prev: usize = len;
            let b = data[1 + i];
            len = (len << 8) | (b as usize);
            proof {
                let bu = b as usize;
                assert(prev < 0x100_0000 ==> ((prev << 8) | bu) == prev * 256 + bu && ((prev << 8)
                    | bu) < 0x1_0000_0000) by (bit_vector)
                    requires
                        bu < 0x100,
                ;
                assert(prev < 0x1_0000 ==> ((prev << 8) | bu) < 0x100_0000) by (bit_vector)
                    requires
                        bu < 0x100,
                ;
                assert(prev < 0x100 ==> ((prev << 8) | bu) < 0x1_0000) by (bit_vector)
                    requires
                        bu < 0x100,
                ;
            }
            i += 1;
        }
        Ok((len, 1 + num))
    }
}

/// Parse the TLV element at the front of `data`.
fn parse_tlv(data: &[u8]) -> (r: Result<Tlv, DerError>)
    ensures
        match r {
            Ok(t) => {
                &&& spec_tlv_total(data@) == Some(t.total_len as int)
                &&& data@.len() > 0
                &&& t.tag == data@[0]
                &&& 1 <= t.value_start
                &&& t.value_start + t.value_len == t.total_len
                &&& t.total_len <= data@.len()
                &&& spec_parse_length(data@.subrange(1, data@.len() as int)) == Some(
                    (t.value_len as int, (t.value_start - 1) as int),
                )
            },
            Err(_) => spec_tlv_total(data@) is None,
        },
{
    if data.len() == 0 {
        return Err(DerError::Truncated);
    }
    let tag = data[0];
    let rest = vstd::slice::slice_subrange(data, 1, data.len());
    let (value_len, header_len) = match parse_length(rest) {
        Ok(p) => p,
        Err(e) => {
            return Err(e);
        },
    };

    if value_len > data.len() || header_len + 1 > data.len() - value_len {
        return Err(DerError::Truncated);
    }
    let total = header_len + 1 + value_len;
    Ok(Tlv { tag, value_start: header_len + 1, value_len, total_len: total })
}

/// Skip the TLV element at the front, returning the rest of the input.
fn skip_tlv(data: &[u8]) -> (r: Result<&[u8], DerError>)
    ensures
        match r {
            Ok(rest) => spec_tlv_total(data@) matches Some(t) && rest@ == data@.subrange(
                t,
                data@.len() as int,
            ),
            Err(_) => spec_tlv_total(data@) is None,
        },
{
    let tlv = match parse_tlv(data) {
        Ok(t) => t,
        Err(e) => {
            return Err(e);
        },
    };
    Ok(vstd::slice::slice_subrange(data, tlv.total_len, data.len()))
}

/// One step of the tbsCertificate walk: check the expected tag, then skip
/// the field.
pub open spec fn spec_skip_tagged(s: Seq<u8>, tag: u8) -> Option<Seq<u8>> {
    if s.len() == 0 || s[0] != tag {
        None
    } else {
        match spec_tlv_total(s) {
            Some(t) => Some(s.subrange(t, s.len() as int)),
            None => None,
        }
    }
}

/// Where the SubjectPublicKeyInfo TLV lies inside a certificate: unwrap
/// the outer Certificate SEQUENCE, unwrap tbsCertificate, skip the
/// optional `[0]` version, the serial INTEGER, and the signature, issuer,
/// validity and subject SEQUENCEs; the SPKI SEQUENCE follows.
pub open spec fn spec_spki(cert: Seq<u8>) -> Option<Seq<u8>> {
    let outer = if cert.len() > 0 && cert[0] == TAG_SEQUENCE {
        match spec_tlv_total(cert) {
            Some(_) => Some(cert),
            None => None,
        }
    } else {
        None
    };
    match outer {
        None => None,
        Some(o) => match spec_parse_length(o.subrange(1, o.len() as int)) {
            None => None,
            Some((vlen, hdr)) => {
                let inner = o.subrange(1 + hdr, 1 + hdr + vlen);
                if inner.len() > 0 && inner[0] == TAG_SEQUENCE {
                    match spec_parse_length(inner.subrange(1, inner.len() as int)) {
                        None => None,
                        Some((tvlen, thdr)) => {
                            if 1 + thdr + tvlen <= inner.len() {
                                let fields = inner.subrange(1 + thdr, 1 + thdr + tvlen);
                                let after_version = if fields.len() > 0 && fields[0]
                                    == TAG_CONTEXT_0 {
                                    spec_skip_tagged(fields, TAG_CONTEXT_0)
                                } else {
                                    Some(fields)
                                };
                                match after_version {
                                    None => None,
                                    Some(p0) => match spec_skip_tagged(p0, TAG_INTEGER) {
                                        None => None,
                                        Some(p1) => match spec_skip_tagged(p1, TAG_SEQUENCE) {
                                            None => None,
                                            Some(p2) => match spec_skip_tagged(p2, TAG_SEQUENCE) {
                                                None => None,
                                                Some(p3) => match spec_skip_tagged(
                                                    p3,
                                                    TAG_SEQUENCE,
                                                ) {
                                                    None => None,
                                                    Some(p4) => match spec_skip_tagged(
                                                        p4,
                                                        TAG_SEQUENCE,
                                                    ) {
                                                        None => None,
                                                        Some(p5) => {
                                                            if p5.len() > 0 && p5[0]
                                                                == TAG_SEQUENCE {
                                                                match spec_tlv_total(p5) {
                                                                    Some(t) => Some(
                                                                        p5.subrange(0, t),
                                                                    ),
                                                                    None => None,
                                                                }
                                                            } else {
                                                                None
                                                            }
                                                        },
                                                    },
                                                },
                                            },
                                        },
                                    },
                                }
                            } else {
                                None
                            }
                        },
                    }
                } else {
                    None
                }
            },
        },
    }
}

/// Extract the raw SubjectPublicKeyInfo bytes from an X.509 DER
/// certificate: the complete SEQUENCE TLV, which is what gets hashed for
/// SPKI pinning.
pub fn extract_spki(cert_der: &[u8]) -> (r: Result<&[u8], DerError>)
    ensures
        match r {
            Ok(spki) => spec_spki(cert_der@) == Some(spki@),
            Err(_) => spec_spki(cert_der@) is None,
        },
{
    // Outer Certificate SEQUENCE.
    let outer = match parse_tlv(cert_der) {
        Ok(t) => t,
        Err(e) => {
            return Err(e);
        },
    };
    if outer.tag != TAG_SEQUENCE {
        return Err(DerError::UnexpectedTag);
    }
    let inner = vstd::slice::slice_subrange(cert_der, outer.value_start, outer.total_len);

    // tbsCertificate SEQUENCE.
    let tbs = match parse_tlv(inner) {
        Ok(t) => t,
        Err(e) => {
            return Err(e);
        },
    };
    if tbs.tag != TAG_SEQUENCE {
        return Err(DerError::UnexpectedTag);
    }
    let mut pos = vstd::slice::slice_subrange(inner, tbs.value_start, tbs.total_len);
    let ghost fields = pos@;

    // Optional version field, tagged [0].
    if pos.len() > 0 && pos[0] == TAG_CONTEXT_0 {
        pos = match skip_tlv(pos) {
            Ok(p) => p,
            Err(e) => {
                return Err(e);
            },
        };
    }
    proof {
        if fields.len() > 0 && fields[0] == TAG_CONTEXT_0 {
            assert(spec_skip_tagged(fields, TAG_CONTEXT_0) == Some(pos@));
        }
    }

    // serialNumber INTEGER.
    if !(pos.len() > 0 && pos[0] == TAG_INTEGER) {
        return Err(DerError::UnexpectedTag);
    }
    pos = match skip_tlv(pos) {
        Ok(p) => p,
        Err(e) => {
            return Err(e);
        },
    };

    // signature AlgorithmIdentifier (SEQUENCE).
    if !(pos.len() > 0 && pos[0] == TAG_SEQUENCE) {
        return Err(DerError::UnexpectedTag);
    }
    pos = match skip_tlv(pos) {
        Ok(p) => p,
        Err(e) => {
            return Err(e);
        },
    };

    // issuer Name (SEQUENCE).
    if !(pos.len() > 0 && pos[0] == TAG_SEQUENCE) {
        return Err(DerError::UnexpectedTag);
    }
    pos = match skip_tlv(pos) {
        Ok(p) => p,
        Err(e) => {
            return Err(e);
        },
    };

    // validity (SEQUENCE).
    if !(pos.len() > 0 && pos[0] == TAG_SEQUENCE) {
        return Err(DerError::UnexpectedTag);
    }
    pos = match skip_tlv(pos) {
        Ok(p) => p,
        Err(e) => {
            return Err(e);
        },
    };

    // subject Name (SEQUENCE).
    if !(pos.len() > 0 && pos[0] == TAG_SEQUENCE) {
        return Err(DerError::UnexpectedTag);
    }
    pos = match skip_tlv(pos) {
        Ok(p) => p,
        Err(e) => {
            return Err(e);
        },
    };

    // subjectPublicKeyInfo SEQUENCE: return the complete TLV.
    if !(pos.len() > 0 && pos[0] == TAG_SEQUENCE) {
        return Err(DerError::UnexpectedTag);
    }
    let spki = match parse_tlv(pos) {
        Ok(t) => t,
        Err(e) => {
            return Err(e);
        },
    };
    Ok(vstd::slice::slice_subrange(pos, 0, spki.total_len))
}

} // verus!
