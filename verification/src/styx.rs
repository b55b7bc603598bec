//! Styx (9P2000) message types and wire format.
//!
//! Each message is `size[4] type[1] tag[2]` followed by its fields; the
//! size includes itself. Strings travel as a little-endian length prefix
//! and raw bytes.

use vstd::prelude::*;

use crate::bytes::{get_u16, get_u32, get_u64, put_u16, put_u32, put_u64, u16_from_le, u16_le,
    u32_from_le, u32_le, u64_from_le, u64_le};

verus! {

pub const NOTAG: u16 = 0xFFFF;

pub const NOFID: u32 = 0xFFFFFFFF;

/// Styx message types.
#[derive(Clone, Copy, PartialEq, Eq, Structural, Debug)]
pub enum StyxMsgType {
    Tversion,
    Rversion,
    Tauth,
    Rauth,
    Tattach,
    Rattach,
    Rerror,
    Tflush,
    Rflush,
    Twalk,
    Rwalk,
    Topen,
    Ropen,
    Tcreate,
    Rcreate,
    Tread,
    Rread,
    Twrite,
    Rwrite,
    Tclunk,
    Rclunk,
    Tremove,
    Rremove,
    Tstat,
    Rstat,
    Twstat,
    Rwstat,
}

impl StyxMsgType {
    /// The wire code of this message type.
    pub open spec fn spec_code(self) -> u8 {
        match self {
            StyxMsgType::Tversion => 100,
            StyxMsgType::Rversion => 101,
            StyxMsgType::Tauth => 102,
            StyxMsgType::Rauth => 103,
            StyxMsgType::Tattach => 104,
            StyxMsgType::Rattach => 105,
            StyxMsgType::Rerror => 107,
            StyxMsgType::Tflush => 108,
            StyxMsgType::Rflush => 109,
            StyxMsgType::Twalk => 110,
            StyxMsgType::Rwalk => 111,
            StyxMsgType::Topen => 112,
            StyxMsgType::Ropen => 113,
            StyxMsgType::Tcreate => 114,
            StyxMsgType::Rcreate => 115,
            StyxMsgType::Tread => 116,
            StyxMsgType::Rread => 117,
            StyxMsgType::Twrite => 118,
            StyxMsgType::Rwrite => 119,
            StyxMsgType::Tclunk => 120,
            StyxMsgType::Rclunk => 121,
            StyxMsgType::Tremove => 122,
            StyxMsgType::Rremove => 123,
            StyxMsgType::Tstat => 124,
            StyxMsgType::Rstat => 125,
            StyxMsgType::Twstat => 126,
            StyxMsgType::Rwstat => 127,
        }
    }

    pub fn code(self) -> (r: u8)
        ensures
            r == self.spec_code(),
    {
        match self {
            StyxMsgType::Tversion => 100,
            StyxMsgType::Rversion => 101,
            StyxMsgType::Tauth => 102,
            StyxMsgType::Rauth => 103,
            StyxMsgType::Tattach => 104,
            StyxMsgType::Rattach => 105,
            StyxMsgType::Rerror => 107,
            StyxMsgType::Tflush => 108,
            StyxMsgType::Rflush => 109,
            StyxMsgType::Twalk => 110,
            StyxMsgType::Rwalk => 111,
            StyxMsgType::Topen => 112,
            StyxMsgType::Ropen => 113,
            StyxMsgType::Tcreate => 114,
            StyxMsgType::Rcreate => 115,
            StyxMsgType::Tread => 116,
            StyxMsgType::Rread => 117,
            StyxMsgType::Twrite => 118,
            StyxMsgType::Rwrite => 119,
            StyxMsgType::Tclunk => 120,
            StyxMsgType::Rclunk => 121,
            StyxMsgType::Tremove => 122,
            StyxMsgType::Rremove => 123,
            StyxMsgType::Tstat => 124,
            StyxMsgType::Rstat => 125,
            StyxMsgType::Twstat => 126,
            StyxMsgType::Rwstat => 127,
        }
    }

    /// Decode a wire code; unknown codes give nothing.
    pub fn from_u8(v: u8) -> (r: Option<StyxMsgType>)
        ensures
            match r {
                Some(t) => t.spec_code() == v,
                None => v < 100 || v == 106 || v > 127,
            },
    {
        match v {
            100 => Some(StyxMsgType::Tversion),
            101 => Some(StyxMsgType::Rversion),
            102 => Some(StyxMsgType::Tauth),
            103 => Some(StyxMsgType::Rauth),
            104 => Some(StyxMsgType::Tattach),
            105 => Some(StyxMsgType::Rattach),
            107 => Some(StyxMsgType::Rerror),
            108 => Some(StyxMsgType::Tflush),
            109 => Some(StyxMsgType::Rflush),
            110 => Some(StyxMsgType::Twalk),
            111 => Some(StyxMsgType::Rwalk),
            112 => Some(StyxMsgType::Topen),
            113 => Some(StyxMsgType::Ropen),
            114 => Some(StyxMsgType::Tcreate),
            115 => Some(StyxMsgType::Rcreate),
            116 => Some(StyxMsgType::Tread),
            117 => Some(StyxMsgType::Rread),
            118 => Some(StyxMsgType::Twrite),
            119 => Some(StyxMsgType::Rwrite),
            120 => Some(StyxMsgType::Tclunk),
            121 => Some(StyxMsgType::Rclunk),
            122 => Some(StyxMsgType::Tremove),
            123 => Some(StyxMsgType::Rremove),
            124 => Some(StyxMsgType::Tstat),
            125 => Some(StyxMsgType::Rstat),
            126 => Some(StyxMsgType::Twstat),
            127 => Some(StyxMsgType::Rwstat),
            _ => None,
        }
    }
}

/// Unique identification of a file.
#[derive(Clone, Copy, PartialEq, Eq, Structural, Debug)]
pub struct Qid {
    /// 0x80 for directories, 0x00 for plain files.
    pub qtype: u8,
    pub version: u32,
    pub path: u64,
}

/// The 13 wire bytes of a qid.
pub open spec fn qid_bytes(q: Qid) -> Seq<u8> {
    seq![q.qtype] + u32_le(q.version) + u64_le(q.path)
}

impl Qid {
    pub fn dir(path: u64) -> (r: Self)
        ensures
            r == (Qid { qtype: 0x80, version: 0, path }),
    {
        Qid { qtype: 0x80, version: 0, path }
    }

    pub fn file(path: u64) -> (r: Self)
        ensures
            r == (Qid { qtype: 0x00, version: 0, path }),
    {
        Qid { qtype: 0x00, version: 0, path }
    }

    /// Append the 13 wire bytes.
    pub fn encode(&self, buf: &mut Vec<u8>)
        ensures
            final(buf)@ == old(buf)@ + qid_bytes(*self),
    {
        buf.push(self.qtype);
        put_u32(buf, self.version);
        put_u64(buf, self.path);
        proof {
            assert(final(buf)@ =~= old(buf)@ + qid_bytes(*self));
        }
    }
}

/// A stat record (simplified).
#[derive(Clone, PartialEq, Eq, Debug)]
pub struct Stat {
    pub qid: Qid,
    pub mode: u32,
    pub length: u64,
    /// File name bytes.
    pub name: Vec<u8>,
}

/// The wire bytes of a stat record: a two-byte size prefix (excluding
/// itself), type and dev, the qid, mode, access and modification times,
/// length, the name string, and three empty strings.
pub open spec fn stat_bytes(qid: Qid, mode: u32, length: u64, name: Seq<u8>) -> Seq<u8> {
    let body = u16_le(0) + u32_le(0) + qid_bytes(qid) + u32_le(mode) + u32_le(0) + u32_le(0)
        + u64_le(length) + u16_le(name.len() as u16) + name + u16_le(0) + u16_le(0) + u16_le(0);
    u16_le(body.len() as u16) + body
}

impl Stat {
    /// Serialize to wire format.
    pub fn encode(&self) -> (r: Vec<u8>)
        requires
            self.name@.len() < 0x10000 - 47,
        ensures
            r@ == stat_bytes(self.qid, self.mode, self.length, self.name@),
    {
        let mut body: Vec<u8> = Vec::new();
        put_u16(&mut body, 0);
        put_u32(&mut body, 0);
        self.qid.encode(&mut body);
        put_u32(&mut body, self.mode);
        put_u32(&mut body, 0);
        put_u32(&mut body, 0);
        put_u64(&mut body, self.length);
        put_u16(&mut body, self.name.len() as u16);
        let mut i: usize = 0;
        let ghost before_name = body@;
        while i < self.name.len()
            invariant
                i <= self.name@.len(),
                body@ == before_name + self.name@.subrange(0, i as int),
            decreases self.name@.len() - i,
        {
            let b = self.name[i];
            body.push(b);
            proof {
                assert(body@ =~= before_name + self.name@.subrange(0, i + 1));
            }
            i += 1;
        }
        proof {
            assert(before_name + self.name@.subrange(0, self.name@.len() as int) =~= before_name
                + self.name@);
        }
        put_u16(&mut body, 0);
        put_u16(&mut body, 0);
        put_u16(&mut body, 0);

        let mut out: Vec<u8> = Vec::new();
        put_u16(&mut out, body.len() as u16);
        let mut k: usize = 0;
        let ghost prefix = out@;
        while k < body.len()
            invariant
                k <= body@.len(),
                out@ == prefix + body@.subrange(0, k as int),
            decreases body@.len() - k,
        {
            let b = body[k];
            out.push(b);
            proof {
                assert(out@ =~= prefix + body@.subrange(0, k + 1));
            }
            k += 1;
        }
        proof {
            assert(out@ =~= u16_le(body@.len() as u16) + body@);
            assert(out@ =~= stat_bytes(self.qid, self.mode, self.length, self.name@));
        }
        out
    }
}

/// A parsed Styx message: the requests the server handles and the
/// responses it produces.
pub enum StyxMsg {
    Tversion { tag: u16, msize: u32, version: Vec<u8> },
    Rversion { tag: u16, msize: u32, version: Vec<u8> },
    Tattach { tag: u16, fid: u32, afid: u32, uname: Vec<u8>, aname: Vec<u8> },
    Rattach { tag: u16, qid: Qid },
    Rerror { tag: u16, ename: Vec<u8> },
    Twalk { tag: u16, fid: u32, newfid: u32, wnames: Vec<Vec<u8>> },
    Rwalk { tag: u16, qids: Vec<Qid> },
    Topen { tag: u16, fid: u32, mode: u8 },
    Ropen { tag: u16, qid: Qid, iounit: u32 },
    Tread { tag: u16, fid: u32, offset: u64, count: u32 },
    Rread { tag: u16, data: Vec<u8> },
    Twrite { tag: u16, fid: u32, offset: u64, data: Vec<u8> },
    Rwrite { tag: u16, count: u32 },
    Tclunk { tag: u16, fid: u32 },
    Rclunk { tag: u16 },
    Tstat { tag: u16, fid: u32 },
    Rstat { tag: u16, stat: Stat },
}

/// Wire-format parse errors.
#[derive(Clone, Copy, PartialEq, Eq, Structural, Debug)]
pub enum ParseError {
    TooShort,
    InvalidType,
    Unimplemented,
}

/// Read a length-prefixed string at `off`; returns the bytes and the
/// offset just past them.
fn read_string_off(data: &[u8], off: usize) -> (r: Result<(Vec<u8>, usize), ParseError>)
    ensures
        match r {
            Ok((s, end)) => {
                &&& off + 2 <= data@.len()
                &&& s@.len() == u16_from_le(data@.subrange(off as int, off + 2))
                &&& end == off + 2 + s@.len()
                &&& end <= data@.len()
                &&& s@ == data@.subrange(off + 2, end as int)
            },
            Err(_) => true,
        },
{
    let dlen = data.len();
    if off > dlen || dlen - off < 2 {
        return Err(ParseError::TooShort);
    }
    let len = get_u16(data, off) as usize;
    if len > dlen || off + 2 > dlen - len {
        return Err(ParseError::TooShort);
    }
    let start = off + 2;
    let mut s: Vec<u8> = Vec::new();
    let mut i: usize = 0;
    while i < len
        invariant
            i <= len,
            start + len <= dlen,
            dlen == data@.len(),
            s@.len() == i,
            forall|k: int| 0 <= k < i ==> s@[k] == data@[start + k],
        decreases len - i,
    {
        let b = data[start + i];
        s.push(b);
        i += 1;
    }
    proof {
        assert(s@ =~= data@.subrange(start as int, (start + len) as int));
    }
    Ok((s, start + len))
}

/// Read a little-endian `u32` at `off`.
fn read_u32(data: &[u8], off: usize) -> (r: Result<u32, ParseError>)
    ensures
        match r {
            Ok(v) => off + 4 <= data@.len() && v == u32_from_le(
                data@.subrange(off as int, off + 4),
            ),
            Err(_) => off + 4 > data@.len(),
        },
{
    let dlen = data.len();
    if off > dlen || dlen - off < 4 {
        return Err(ParseError::TooShort);
    }
    Ok(get_u32(data, off))
}

/// Parse a Styx request from a byte buffer. The header carries the total
/// size, the message type and the tag; each request's fields follow.
pub fn parse(data: &[u8]) -> (r: Result<StyxMsg, ParseError>)
    ensures
        match r {
            Ok(m) => {
                &&& data@.len() >= 7
                &&& ({
                    let tag = u16_from_le(data@.subrange(5, 7));
                    match m {
                        StyxMsg::Tversion { tag: t, .. } => t == tag && data@[4] == 100,
                        StyxMsg::Tattach { tag: t, .. } => t == tag && data@[4] == 104,
                        StyxMsg::Twalk { tag: t, .. } => t == tag && data@[4] == 110,
                        StyxMsg::Topen { tag: t, .. } => t == tag && data@[4] == 112,
                        StyxMsg::Tread { tag: t, .. } => t == tag && data@[4] == 116,
                        StyxMsg::Twrite { tag: t, .. } => t == tag && data@[4] == 118,
                        StyxMsg::Tclunk { tag: t, .. } => t == tag && data@[4] == 120,
                        StyxMsg::Tstat { tag: t, .. } => t == tag && data@[4] == 124,
                        _ => false,
                    }
                })
            },
            Err(_) => true,
        },
{
    if data.len() < 7 {
        return Err(ParseError::TooShort);
    }
    let size = get_u32(data, 0) as usize;
    if data.len() < size || size < 7 {
        return Err(ParseError::TooShort);
    }
    let msg_type = match StyxMsgType::from_u8(data[4]) {
        Some(t) => t,
        None => {
            return Err(ParseError::InvalidType);
        },
    };
    let tag = get_u16(data, 5);
    let body = vstd::slice::slice_subrange(data, 7, size);

    match msg_type {
        StyxMsgType::Tversion => {
            let msize = match read_u32(body, 0) {
                Ok(v) => v,
                Err(e) => {
                    return Err(e);
                },
            };
            let (version, _) = match read_string_off(body, 4) {
                Ok(p) => p,
                Err(e) => {
                    return Err(e);
                },
            };
            Ok(StyxMsg::Tversion { tag, msize, version })
        },
        StyxMsgType::Tattach => {
            let fid = match read_u32(body, 0) {
                Ok(v) => v,
                Err(e) => {
                    return Err(e);
                },
            };
            let afid = match read_u32(body, 4) {
                Ok(v) => v,
                Err(e) => {
                    return Err(e);
                },
            };
            let (uname, off) = match read_string_off(body, 8) {
                Ok(p) => p,
                Err(e) => {
                    return Err(e);
                },
            };
            let (aname, _) = match read_string_off(body, off) {
                Ok(p) => p,
                Err(e) => {
                    return Err(e);
                },
            };
            Ok(StyxMsg::Tattach { tag, fid, afid, uname, aname })
        },
        StyxMsgType::Twalk => {
            if body.len() < 10 {
                return Err(ParseError::TooShort);
            }
            let fid = match read_u32(body, 0) {
                Ok(v) => v,
                Err(e) => {
                    return Err(e);
                },
            };
            let newfid = match read_u32(body, 4) {
                Ok(v) => v,
                Err(e) => {
                    return Err(e);
                },
            };
            let nwname = get_u16(body, 8) as usize;
            if nwname > 16 {
                return Err(ParseError::TooShort);
            }
            let mut wnames: Vec<Vec<u8>> = Vec::new();
            let mut off: usize = 10;
            let mut k: usize = 0;
            while k < nwname
                invariant
                    k <= nwname,
                    nwname <= 16,
                    wnames@.len() == k,
                    off <= body@.len() || k == 0,
                decreases nwname - k,
            {
                let (s, new_off) = match read_string_off(body, off) {
                    Ok(p) => p,
                    Err(e) => {
                        return Err(e);
                    },
                };
                wnames.push(s);
                off = new_off;
                k += 1;
            }
            Ok(StyxMsg::Twalk { tag, fid, newfid, wnames })
        },
        StyxMsgType::Topen => {
            if body.len() < 5 {
                return Err(ParseError::TooShort);
            }
            let fid = match read_u32(body, 0) {
                Ok(v) => v,
                Err(e) => {
                    return Err(e);
                },
            };
            let mode = body[4];
            Ok(StyxMsg::Topen { tag, fid, mode })
        },
        StyxMsgType::Tread => {
            if body.len() < 16 {
                return Err(ParseError::TooShort);
            }
            let fid = match read_u32(body, 0) {
                Ok(v) => v,
                Err(e) => {
                    return Err(e);
                },
            };
            let offset = get_u64(body, 4);
            let count = match read_u32(body, 12) {
                Ok(v) => v,
                Err(e) => {
                    return Err(e);
                },
            };
            Ok(StyxMsg::Tread { tag, fid, offset, count })
        },
        StyxMsgType::Twrite => {
            if body.len() < 16 {
                return Err(ParseError::TooShort);
            }
            let fid = match read_u32(body, 0) {
                Ok(v) => v,
                Err(e) => {
                    return Err(e);
                },
            };
            let offset = get_u64(body, 4);
            let count = match read_u32(body, 12) {
                Ok(v) => v,
                Err(e) => {
                    return Err(e);
                },
            };
            let count = count as usize;
            if count > body.len() || 16 > body.len() - count {
                return Err(ParseError::TooShort);
            }
            let blen = body.len();
            let mut payload: Vec<u8> = Vec::new();
            let mut i: usize = 0;
            while i < count
                invariant
                    i <= count,
                    16 + count <= blen,
                    blen == body@.len(),
                    payload@.len() == i,
                    forall|k: int| 0 <= k < i ==> payload@[k] == body@[16 + k],
                decreases count - i,
            {
                let b = body[16 + i];
                payload.push(b);
                i += 1;
            }
            Ok(StyxMsg::Twrite { tag, fid, offset, data: payload })
        },
        StyxMsgType::Tclunk => {
            let fid = match read_u32(body, 0) {
                Ok(v) => v,
                Err(e) => {
                    return Err(e);
                },
            };
            Ok(StyxMsg::Tclunk { tag, fid })
        },
        StyxMsgType::Tstat => {
            let fid = match read_u32(body, 0) {
                Ok(v) => v,
                Err(e) => {
                    return Err(e);
                },
            };
            Ok(StyxMsg::Tstat { tag, fid })
        },
        _ => Err(ParseError::Unimplemented),
    }
}

/// Append a length-prefixed string.
fn write_string(buf: &mut Vec<u8>, s: &Vec<u8>)
    requires
        s@.len() < 0x10000,
    ensures
        final(buf)@ == old(buf)@ + u16_le(s@.len() as u16) + s@,
{
    put_u16(buf, s.len() as u16);
    let ghost prefix = buf@;
    let mut i: usize = 0;
    while i < s.len()
        invariant
            i <= s@.len(),
            buf@ == prefix + s@.subrange(0, i as int),
        decreases s@.len() - i,
    {
        let b = s[i];
        buf.push(b);
        proof {
            assert(buf@ =~= prefix + s@.subrange(0, i + 1));
        }
        i += 1;
    }
    proof {
        assert(buf@ =~= old(buf)@ + u16_le(s@.len() as u16) + s@);
    }
}

/// Serialize a response message: four size bytes (filled in at the end),
/// the type code, the tag, and the fields. Requests are never encoded by
/// the server; they produce an empty payload after the size prefix.
pub fn encode(msg: &StyxMsg) -> (r: Vec<u8>)
    requires
        match msg {
            StyxMsg::Rversion { version, .. } => version@.len() < 0x10000,
            StyxMsg::Rerror { ename, .. } => ename@.len() < 0x10000,
            StyxMsg::Rwalk { qids, .. } => qids@.len() < 0x1000,
            StyxMsg::Rread { data, .. } => data@.len() < 0x1000_0000,
            StyxMsg::Rstat { stat, .. } => stat.name@.len() < 0x10000 - 47,
            _ => true,
        },
    ensures
        r@.len() >= 4,
        r@.len() <= 0x1_0000_0000,
        r@.subrange(0, 4) == u32_le(r@.len() as u32),
        ({
            match msg {
                StyxMsg::Rversion { tag, msize, version } => r@.subrange(4, r@.len() as int)
                    == seq![101u8] + u16_le(*tag) + u32_le(*msize) + u16_le(
                    version@.len() as u16,
                ) + version@,
                StyxMsg::Rattach { tag, qid } => r@.subrange(4, r@.len() as int) == seq![105u8]
                    + u16_le(*tag) + qid_bytes(*qid),
                StyxMsg::Rerror { tag, ename } => r@.subrange(4, r@.len() as int) == seq![107u8]
                    + u16_le(*tag) + u16_le(ename@.len() as u16) + ename@,
                StyxMsg::Ropen { tag, qid, iounit } => r@.subrange(4, r@.len() as int)
                    == seq![113u8] + u16_le(*tag) + qid_bytes(*qid) + u32_le(*iounit),
                StyxMsg::Rwrite { tag, count } => r@.subrange(4, r@.len() as int) == seq![119u8]
                    + u16_le(*tag) + u32_le(*count),
                StyxMsg::Rclunk { tag } => r@.subrange(4, r@.len() as int) == seq![121u8]
                    + u16_le(*tag),
                _ => true,
            }
        }),
{
    let mut payload: Vec<u8> = Vec::new();

    match msg {
        StyxMsg::Rversion { tag, msize, version } => {
            payload.push(101u8);
            put_u16(&mut payload, *tag);
            put_u32(&mut payload, *msize);
            write_string(&mut payload, version);
        },
        StyxMsg::Rattach { tag, qid } => {
            payload.push(105u8);
            put_u16(&mut payload, *tag);
            qid.encode(&mut payload);
        },
        StyxMsg::Rerror { tag, ename } => {
            payload.push(107u8);
            put_u16(&mut payload, *tag);
            write_string(&mut payload, ename);
        },
        StyxMsg::Rwalk { tag, qids } => {
            payload.push(111u8);
            put_u16(&mut payload, *tag);
            put_u16(&mut payload, qids.len() as u16);
            let mut i: usize = 0;
            while i < qids.len()
                invariant
                    i <= qids@.len(),
                    qids@.len() < 0x1000,
                    payload@.len() <= 5 + 13 * i,
                decreases qids@.len() - i,
            {
                let q = qids[i];
                q.encode(&mut payload);
                i += 1;
            }
        },
        StyxMsg::Ropen { tag, qid, iounit } => {
            payload.push(113u8);
            put_u16(&mut payload, *tag);
            qid.encode(&mut payload);
            put_u32(&mut payload, *iounit);
        },
        StyxMsg::Rread { tag, data } => {
            payload.push(117u8);
            put_u16(&mut payload, *tag);
            put_u32(&mut payload, data.len() as u32);
            let ghost prefix = payload@;
            let mut i: usize = 0;
            while i < data.len()
                invariant
                    i <= data@.len(),
                    payload@ == prefix + data@.subrange(0, i as int),
                decreases data@.len() - i,
            {
                let b = data[i];
                payload.push(b);
                proof {
                    assert(payload@ =~= prefix + data@.subrange(0, i + 1));
                }
                i += 1;
            }
        },
        StyxMsg::Rwrite { tag, count } => {
            payload.push(119u8);
            put_u16(&mut payload, *tag);
            put_u32(&mut payload, *count);
        },
        StyxMsg::Rclunk { tag } => {
            payload.push(121u8);
            put_u16(&mut payload, *tag);
        },
        StyxMsg::Rstat { tag, stat } => {
            payload.push(125u8);
            put_u16(&mut payload, *tag);
            let stat_data = stat.encode();
            put_u16(&mut payload, stat_data.len() as u16);
            let ghost prefix = payload@;
            let mut i: usize = 0;
            while i < stat_data.len()
                invariant
                    i <= stat_data@.len(),
                    payload@ == prefix + stat_data@.subrange(0, i as int),
                decreases stat_data@.len() - i,
            {
                let b = stat_data[i];
                payload.push(b);
                proof {
                    assert(payload@ =~= prefix + stat_data@.subrange(0, i + 1));
                }
                i += 1;
            }
        },
        _ => (),
    }

    let mut out: Vec<u8> = Vec::new();
    let total = payload.len() + 4;
    put_u32(&mut out, total as u32);
    let ghost prefix = out@;
    let mut k: usize = 0;
    while k < payload.len()
        invariant
            k <= payload@.len(),
            out@ == prefix + payload@.subrange(0, k as int),
            prefix == u32_le((payload@.len() + 4) as u32),
        decreases payload@.len() - k,
    {
        let b = payload[k];
        out.push(b);
        proof {
            assert(out@ =~= prefix + payload@.subrange(0, k + 1));
        }
        k += 1;
    }
    proof {
        assert(out@ =~= u32_le((payload@.len() + 4) as u32) + payload@);
        assert(out@.subrange(0, 4) =~= u32_le(out@.len() as u32));
        assert(out@.subrange(4, out@.len() as int) =~= payload@);
    }
    out
}

} // verus!
