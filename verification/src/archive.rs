//! The archive of a root filesystem: how it is compressed, and what is in it.
use vstd::prelude::*;

use std::io::Read;

use crate::bytes::{part, starts_with};

verus! {

/// How an archive is compressed.
#[derive(Clone, Copy, PartialEq, Eq, Structural)]
pub enum Packing {
    Gzip,
    Xz,
    Plain,
}

/// The first bytes of a gzip stream.
pub open spec fn gzip_magic() -> Seq<u8> {
    seq![0x1f, 0x8b]
}

/// The first bytes of an xz stream.
pub open spec fn xz_magic() -> Seq<u8> {
    seq![0xfd, 0x37, 0x7a, 0x58, 0x5a]
}

/// How an archive is compressed, by its first bytes.
pub open spec fn packing_of(data: Seq<u8>) -> Packing {
    if gzip_magic().is_prefix_of(data) {
        Packing::Gzip
    } else if xz_magic().is_prefix_of(data) {
        Packing::Xz
    } else {
        Packing::Plain
    }
}

/// How an archive is compressed.
pub fn packing(data: &[u8]) -> (r: Packing)
    ensures
        r == packing_of(data@),
{
    let gzip: [u8; 2] = [0x1f, 0x8b];
    let xz: [u8; 5] = [0xfd, 0x37, 0x7a, 0x58, 0x5a];
    proof {
        assert(gzip@ =~= gzip_magic());
        assert(xz@ =~= xz_magic());
    }
    if starts_with(data, gzip.as_slice()) {
        Packing::Gzip
    } else if starts_with(data, xz.as_slice()) {
        Packing::Xz
    } else {
        Packing::Plain
    }
}

/// What a gzip stream decompresses to, where it is one.
pub uninterp spec fn gunzip_of(data: Seq<u8>) -> Option<Seq<u8>>;

/// The bytes of the first member of a gzip stream and whether it was read to its end without an error,
/// as `flate2::read::GzDecoder` gives them: a function of the compressed bytes. How many bytes were
/// read in front of an error is left unsaid; it depends on how the reading was cut up.
#[verifier::external_body]
pub(crate) fn gunzip(data: &[u8]) -> (r: (Vec<u8>, bool))
    ensures
        r.1 == gunzip_of(data@) is Some,
        r.1 ==> Some(r.0@) == gunzip_of(data@),
{
    let mut out = Vec::new();
    let done = flate2::read::GzDecoder::new(data).read_to_end(&mut out);
    (out, done.is_ok())
}

/// The archive inside the compression, and whether all of it could be read.
pub struct Payload {
    pub bytes: Vec<u8>,
    pub whole: bool,
}

/// What an archive holds, given what came of decompressing it as a gzip stream; what is said where it
/// cannot be read at all.
pub fn payload(data: &[u8], bytes: Vec<u8>, whole: bool) -> (r: Result<Payload, &'static str>)
    ensures
        packing_of(data@) is Gzip ==> (r matches Ok(p) && p.bytes@ == bytes@ && p.whole == whole),
        packing_of(data@) is Plain ==> (r matches Ok(p) && p.bytes@ == data@ && p.whole),
        packing_of(data@) is Xz ==> (r matches Err(m) && m@
            == "xz-compressed tarballs not supported (need liblzma)"@),
{
    match packing(data) {
        Packing::Gzip => Ok(Payload { bytes, whole }),
        Packing::Xz => Err("xz-compressed tarballs not supported (need liblzma)"),
        Packing::Plain => {
            proof {
                assert(data@.subrange(0, data@.len() as int) =~= data@);
            }
            Ok(Payload { bytes: part(data, 0, data.len()), whole: true })
        },
    }
}

/// What an archive holds; what is said where its compression is not supported.
pub fn unpacked(data: &[u8]) -> (r: Result<Payload, &'static str>)
    ensures
        packing_of(data@) is Gzip ==> (r matches Ok(p) && p.whole == gunzip_of(data@) is Some && (
        p.whole ==> Some(p.bytes@) == gunzip_of(data@))),
        packing_of(data@) is Plain ==> (r matches Ok(p) && p.bytes@ == data@ && p.whole),
        packing_of(data@) is Xz ==> (r matches Err(m) && m@
            == "xz-compressed tarballs not supported (need liblzma)"@),
{
    match packing(data) {
        Packing::Gzip => {
            let (bytes, whole) = gunzip(data);
            payload(data, bytes, whole)
        },
        _ => payload(data, Vec::new(), false),
    }
}

/// An archive is a gzip stream or an xz stream exactly if it begins with the bytes that every such stream
/// begins with, and is not compressed where it begins with neither.
pub proof fn law_packing(data: Seq<u8>)
    ensures
        packing_of(data) is Gzip <==> data.len() >= 2 && data[0] == 0x1f && data[1] == 0x8b,
        packing_of(data) is Xz <==> data.len() >= 5 && data[0] == 0xfd && data[1] == 0x37 && data[2]
            == 0x7a && data[3] == 0x58 && data[4] == 0x5a,
{
    let gzip = gzip_magic();
    let xz = xz_magic();
    if data.len() >= 2 {
        let start = data.subrange(0, 2);
        assert(start[0] == data[0] && start[1] == data[1]);
        if data[0] == 0x1f && data[1] == 0x8b {
            assert(start =~= gzip);
        }
        if start == gzip {
            assert(start[0] == gzip[0] && start[1] == gzip[1]);
        }
    }
    if data.len() >= 5 {
        let start = data.subrange(0, 5);
        assert(start[0] == data[0] && start[1] == data[1] && start[2] == data[2] && start[3]
            == data[3] && start[4] == data[4]);
        if data[0] == 0xfd && data[1] == 0x37 && data[2] == 0x7a && data[3] == 0x58 && data[4]
            == 0x5a {
            assert(start =~= xz);
        }
        if start == xz {
            assert(start[0] == xz[0] && start[1] == xz[1] && start[2] == xz[2] && start[3] == xz[3]
                && start[4] == xz[4]);
        }
    }
}

} // verus!
