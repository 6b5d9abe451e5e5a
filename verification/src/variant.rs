//! Which build of the intercept library suits a program, and where it is looked for.
use vstd::prelude::*;

use crate::bytes::{part, same};
#[allow(unused_imports)]
use crate::elf::{
    byte_at, elf_magic, entry_len, low_first, table_start, type_of, u16_le, u32_le, u64_le,
};
use crate::elf::{get_u16, get_u32, get_u64, HEADER_LEN, PT_INTERP};
use crate::path::{join_path, parent};
#[allow(unused_imports)]
use crate::path::{joined_path, parent_of};
use crate::text::{add_text, add_texts, text_has, trimmed_text};
#[allow(unused_imports)]
use crate::text::{has, str_opt, texts, trim_both};

verus! {

/// The name of the intercept library where no build for the program's variant is found.
pub const INTERCEPT_SO: &'static str = "libintercept.so";

/// Where the program header table of a file lies.
#[derive(Clone, Copy, PartialEq, Eq, Structural)]
pub struct InterpTable {
    /// 1 for a 32-bit file, 2 for a 64-bit one.
    pub class: u8,
    pub offset: u64,
    pub entsize: u16,
    pub num: u16,
}

/// What a program header table says.
#[derive(Clone, Copy, PartialEq, Eq, Structural)]
pub enum TableScan {
    /// The file ends inside an entry that had to be read.
    Truncated,
    /// An entry is too short for the fields that had to be read.
    Malformed,
    /// No entry names an interpreter.
    NoInterp,
    /// The interpreter's path is wanted: its offset in the file and its size.
    Interp(u64, u64),
}

/// The table that a file header describes; none where the file is no ELF file.
pub open spec fn interp_table(hdr: Seq<u8>) -> Option<InterpTable> {
    if hdr.take(4) != elf_magic() {
        None
    } else if hdr[4] == 2 {
        Some(
            InterpTable {
                class: hdr[4],
                offset: u64_le(hdr, 32) as u64,
                entsize: u16_le(hdr, 54) as u16,
                num: u16_le(hdr, 56) as u16,
            },
        )
    } else {
        Some(
            InterpTable {
                class: hdr[4],
                offset: u32_le(hdr, 28) as u64,
                entsize: u16_le(hdr, 42) as u16,
                num: u16_le(hdr, 44) as u16,
            },
        )
    }
}

/// What the entries from `from` on say, `raw` being what the file holds of the table.
pub open spec fn scanned(t: InterpTable, raw: Seq<u8>, from: int) -> TableScan
    decreases t.num - from,
{
    let at = from * t.entsize;
    if from >= t.num {
        TableScan::NoInterp
    } else if at + t.entsize > raw.len() {
        TableScan::Truncated
    } else if t.entsize < 4 {
        TableScan::Malformed
    } else if u32_le(raw, at) != PT_INTERP {
        scanned(t, raw, from + 1)
    } else if t.class == 2 {
        if t.entsize < 40 {
            TableScan::Malformed
        } else {
            TableScan::Interp(u64_le(raw, at + 8) as u64, u64_le(raw, at + 32) as u64)
        }
    } else {
        if t.entsize < 20 {
            TableScan::Malformed
        } else {
            TableScan::Interp(u32_le(raw, at + 4) as u64, u32_le(raw, at + 16) as u64)
        }
    }
}

/// The name of a variant: the width of the program's words and the kind of its C library.
pub open spec fn variant_text(class: u8, interp: Seq<char>) -> Seq<char> {
    if class == 1 {
        if has(interp, "musl"@) {
            "32-musl"@
        } else {
            "32-glibc"@
        }
    } else {
        if has(interp, "musl"@) {
            "64-musl"@
        } else {
            "64-glibc"@
        }
    }
}

/// What the standard library makes of bytes that need not be UTF-8.
pub uninterp spec fn lossy(raw: Seq<u8>) -> Seq<char>;

/// The text in the given bytes, as `String::from_utf8_lossy` gives it: valid UTF-8 is decoded as it
/// is; where the bytes are no UTF-8, replacement characters stand for what cannot be decoded.
#[verifier::external_body]
fn lossy_text(raw: &[u8]) -> (r: String)
    ensures
        r@ == lossy(raw@),
        vstd::utf8::valid_utf8(raw@) ==> r@ == vstd::utf8::decode_utf8(raw@),
{
    String::from_utf8_lossy(raw).into_owned()
}

/// The table that a file header describes; none where the file is no ELF file.
pub fn interp_header(hdr: &[u8]) -> (r: Option<InterpTable>)
    requires
        hdr@.len() == HEADER_LEN,
    ensures
        r == interp_table(hdr@),
{
    let magic: [u8; 4] = [0x7f, 0x45, 0x4c, 0x46];
    proof {
        assert(magic@ =~= elf_magic());
        assert(hdr@.subrange(0, 4) =~= hdr@.take(4));
    }
    if !same(vstd::slice::slice_subrange(hdr, 0, 4), magic.as_slice()) {
        return None;
    }
    if hdr[4] == 2 {
        Some(
            InterpTable {
                class: hdr[4],
                offset: get_u64(hdr, 32),
                entsize: get_u16(hdr, 54),
                num: get_u16(hdr, 56),
            },
        )
    } else {
        Some(
            InterpTable {
                class: hdr[4],
                offset: get_u32(hdr, 28) as u64,
                entsize: get_u16(hdr, 42),
                num: get_u16(hdr, 44),
            },
        )
    }
}

/// What a program header table says, `raw` being what the file holds of it.
pub fn scan_table(t: InterpTable, raw: &[u8]) -> (r: TableScan)
    ensures
        r == scanned(t, raw@, 0),
{
    let entsize: usize = t.entsize as usize;
    let num: usize = t.num as usize;
    let mut i: usize = 0;
    let mut at: usize = 0;
    while i < num
        invariant
            i <= num,
            entsize == t.entsize,
            num == t.num,
            at == i * entsize,
            at <= raw@.len(),
            scanned(t, raw@, 0) == scanned(t, raw@, i as int),
        decreases num - i,
    {
        proof {
            assert(raw.len() == raw@.len());
            assert((i + 1) * entsize == i * entsize + entsize) by (nonlinear_arith);
        }
        if raw.len() - at < entsize {
            return TableScan::Truncated;
        }
        if entsize < 4 {
            return TableScan::Malformed;
        }
        if get_u32(raw, at) == PT_INTERP {
            if t.class == 2 {
                if entsize < 40 {
                    return TableScan::Malformed;
                }
                return TableScan::Interp(get_u64(raw, at + 8), get_u64(raw, at + 32));
            }
            if entsize < 20 {
                return TableScan::Malformed;
            }
            return TableScan::Interp(get_u32(raw, at + 4) as u64, get_u32(raw, at + 16) as u64);
        }
        at += entsize;
        i += 1;
    }
    TableScan::NoInterp
}

/// The interpreter's path, given what the standard library made of its bytes: zeros around it are no
/// part of it.
pub fn trim_interp(text: &str) -> (r: String)
    ensures
        r@ == trim_both(text@, '\0'),
{
    trimmed_text(text, '\0')
}

/// The interpreter's path in the bytes that the file holds of it.
pub fn interp_text(raw: &[u8]) -> (r: String)
    ensures
        r@ == trim_both(lossy(raw@), '\0'),
        vstd::utf8::valid_utf8(raw@) ==> r@ == trim_both(vstd::utf8::decode_utf8(raw@), '\0'),
{
    let text = lossy_text(raw);
    trim_interp(text.as_str())
}

/// What a file is to the choice of the library.
pub enum Probe {
    /// It is no ELF file, or ends before what had to be read.
    NoProgram,
    /// Its table has entries that are too short to be read.
    Malformed,
    /// It is a program: its class, and the path of its interpreter, which is empty where it names none.
    Program(u8, String),
}

/// What a file is to the choice of the library, as a mathematical value.
pub enum ProbeValue {
    NoProgram,
    Malformed,
    Program(u8, Seq<char>),
}

impl View for Probe {
    type V = ProbeValue;

    open spec fn view(&self) -> ProbeValue {
        match self {
            Probe::NoProgram => ProbeValue::NoProgram,
            Probe::Malformed => ProbeValue::Malformed,
            Probe::Program(class, interp) => ProbeValue::Program(*class, interp@),
        }
    }
}

/// The bytes of a file from an offset on; none where the file has ended.
pub open spec fn tail_from(image: Seq<u8>, offset: int) -> Seq<u8> {
    if offset < image.len() {
        image.skip(offset)
    } else {
        Seq::empty()
    }
}

/// Whether all of a piece can be read from a file; an empty one can from anywhere that can be sought.
pub open spec fn holds(image: Seq<u8>, offset: u64, size: u64) -> bool {
    offset <= i64::MAX && (size == 0 || offset + size <= image.len())
}

/// What a file holds of its interpreter's path.
pub enum Found {
    /// The file is no ELF file, or ends before what had to be read.
    NoProgram,
    /// Its table has entries that are too short to be read.
    Malformed,
    /// It is a program of this class that names no interpreter.
    NoInterp(u8),
    /// It is a program of this class that names an interpreter with these bytes.
    Interp(u8, Seq<u8>),
}

/// What a file with the given contents holds of its interpreter's path.
pub open spec fn found_in(image: Seq<u8>) -> Found {
    if image.len() < HEADER_LEN {
        Found::NoProgram
    } else {
        match interp_table(image.take(HEADER_LEN as int)) {
            None => Found::NoProgram,
            Some(t) => if t.offset > i64::MAX {
                Found::NoProgram
            } else {
                match scanned(t, tail_from(image, t.offset as int), 0) {
                    TableScan::Truncated => Found::NoProgram,
                    TableScan::Malformed => Found::Malformed,
                    TableScan::NoInterp => Found::NoInterp(t.class),
                    TableScan::Interp(offset, size) => if holds(image, offset, size) {
                        Found::Interp(t.class, tail_from(image, offset as int).take(size as int))
                    } else {
                        Found::NoProgram
                    },
                }
            },
        }
    }
}

/// What a file with the given contents is.
pub open spec fn probed(image: Seq<u8>) -> ProbeValue {
    match found_in(image) {
        Found::NoProgram => ProbeValue::NoProgram,
        Found::Malformed => ProbeValue::Malformed,
        Found::NoInterp(class) => ProbeValue::Program(class, Seq::empty()),
        Found::Interp(class, raw) => ProbeValue::Program(class, trim_both(lossy(raw), '\0')),
    }
}

fn tail_of(image: &[u8], offset: u64) -> (r: Vec<u8>)
    ensures
        r@ == tail_from(image@, offset as int),
{
    if offset < image.len() as u64 {
        let r = part(image, offset as usize, image.len());
        proof {
            assert(r@ =~= image@.skip(offset as int));
        }
        r
    } else {
        Vec::new()
    }
}

/// What a file with the given contents is. An interpreter's path that is UTF-8 is decoded as it is.
pub fn elf_interp(image: &[u8]) -> (r: Probe)
    ensures
        r@ == probed(image@),
        found_in(image@) matches Found::Interp(class, raw) ==> (vstd::utf8::valid_utf8(raw) ==> r@
            == ProbeValue::Program(class, trim_both(vstd::utf8::decode_utf8(raw), '\0'))),
{
    if image.len() < HEADER_LEN {
        return Probe::NoProgram;
    }
    let hdr = part(image, 0, HEADER_LEN);
    proof {
        assert(hdr@ =~= image@.take(HEADER_LEN as int));
    }
    let table = match interp_header(hdr.as_slice()) {
        None => {
            return Probe::NoProgram;
        },
        Some(t) => t,
    };
    if table.offset > i64::MAX as u64 {
        return Probe::NoProgram;
    }
    let raw = tail_of(image, table.offset);
    match scan_table(table, raw.as_slice()) {
        TableScan::Truncated => Probe::NoProgram,
        TableScan::Malformed => Probe::Malformed,
        TableScan::NoInterp => {
            let none = String::new();
            proof {
                assert(none@ =~= Seq::empty());
            }
            Probe::Program(table.class, none)
        },
        TableScan::Interp(offset, size) => {
            if offset > i64::MAX as u64 {
                return Probe::NoProgram;
            }
            let rest = tail_of(image, offset);
            if size > rest.len() as u64 {
                return Probe::NoProgram;
            }
            let piece = part(rest.as_slice(), 0, size as usize);
            proof {
                assert(piece@ =~= rest@.take(size as int));
            }
            Probe::Program(table.class, interp_text(piece.as_slice()))
        },
    }
}

/// The name of the variant that suits a program.
pub fn variant_name(class: u8, interp: &str) -> (r: &'static str)
    ensures
        r@ == variant_text(class, interp@),
{
    let musl: bool = text_has(interp, "musl");
    if class == 1 {
        if musl {
            "32-musl"
        } else {
            "32-glibc"
        }
    } else {
        if musl {
            "64-musl"
        } else {
            "64-glibc"
        }
    }
}

/// The name of the variant for a program that may be no ELF file.
pub fn variant_or_default(probe: Option<(u8, &str)>) -> (r: &'static str)
    ensures
        r@ == (match probe {
            Some(p) => variant_text(p.0, p.1@),
            None => "64-glibc"@,
        }),
{
    match probe {
        Some((class, interp)) => variant_name(class, interp),
        None => "64-glibc",
    }
}

/// The file name of the build for a variant.
pub fn variant_file(variant: &str) -> (r: String)
    ensures
        r@ == "libintercept-"@ + variant@ + ".so"@,
{
    add_texts("libintercept-", variant, ".so")
}

/// The directories beside the running program: its own, and the one above.
pub open spec fn beside(exe: Option<Seq<char>>) -> Seq<Seq<char>> {
    match exe {
        None => Seq::empty(),
        Some(e) => match parent_of(e) {
            None => Seq::empty(),
            Some(dir) => match parent_of(dir) {
                None => seq![dir],
                Some(above) => seq![dir, above],
            },
        },
    }
}

/// The places where a library is looked for, in order: the system's, the one below the install
/// prefix, and those beside the running program.
pub open spec fn places(
    name: Seq<char>,
    prefix: Option<Seq<char>>,
    dirs: Seq<Seq<char>>,
) -> Seq<Seq<char>> {
    let system = seq!["/usr/lib/"@ + name, "/usr/local/lib/"@ + name];
    let own = match prefix {
        Some(p) => seq![p + "/lib/"@ + name],
        None => Seq::empty(),
    };
    system + own + dirs.map_values(|dir: Seq<char>| joined_path(dir, name))
}

/// The places where a library is looked for, given the directories beside the running program.
pub fn list_places(name: &str, prefix: Option<&str>, dirs: &[String]) -> (r: Vec<String>)
    ensures
        texts(r@) == places(name@, str_opt(prefix), texts(dirs@)),
{
    let mut out: Vec<String> = Vec::new();
    out.push(add_text("/usr/lib/", name));
    out.push(add_text("/usr/local/lib/", name));
    if let Some(p) = prefix {
        out.push(add_texts(p, "/lib/", name));
    }
    let ghost fixed = texts(out@);
    let ghost below = texts(dirs@).map_values(|dir: Seq<char>| joined_path(dir, name@));
    let mut i: usize = 0;
    proof {
        assert(texts(out@) =~= fixed + below.take(0));
    }
    while i < dirs.len()
        invariant
            i <= dirs@.len(),
            below == texts(dirs@).map_values(|dir: Seq<char>| joined_path(dir, name@)),
            texts(out@) == fixed + below.take(i as int),
        decreases dirs.len() - i,
    {
        let ghost so_far = texts(out@);
        let place = join_path(dirs[i].as_str(), name);
        out.push(place);
        proof {
            assert(texts(out@) =~= so_far.push(place@));
            assert(below.take(i + 1) =~= below.take(i as int).push(place@));
            assert(fixed + below.take(i + 1) =~= so_far.push(place@));
        }
        i += 1;
    }
    proof {
        assert(below.take(dirs@.len() as int) =~= below);
        assert(texts(out@) =~= places(name@, str_opt(prefix), texts(dirs@)));
    }
    out
}

/// The directories beside the running program, given its path where it is known.
pub fn dirs_beside(exe: Option<&str>) -> (r: Vec<String>)
    ensures
        texts(r@) == beside(str_opt(exe)),
{
    let mut out: Vec<String> = Vec::new();
    if let Some(e) = exe {
        if let Some(dir) = parent(e) {
            let above = parent(dir.as_str());
            out.push(dir);
            if let Some(a) = above {
                out.push(a);
            }
        }
    }
    proof {
        assert(texts(out@) =~= beside(str_opt(exe)));
    }
    out
}

/// The places where the intercept library for a variant is looked for, in order: first all those of
/// the variant's own build, and after them those of the build without a variant.
pub fn find_intercept(variant: &str, prefix: Option<&str>, exe: Option<&str>) -> (r: Vec<String>)
    ensures
        texts(r@) == places(
            "libintercept-"@ + variant@ + ".so"@,
            str_opt(prefix),
            beside(str_opt(exe)),
        ) + places("libintercept.so"@, str_opt(prefix), beside(str_opt(exe))),
{
    let dirs = dirs_beside(exe);
    let own = variant_file(variant);
    let mut out = list_places(own.as_str(), prefix, dirs.as_slice());
    let mut plain = list_places(INTERCEPT_SO, prefix, dirs.as_slice());
    let ghost first = texts(out@);
    let ghost second = texts(plain@);
    out.append(&mut plain);
    proof {
        assert(texts(out@) =~= first + second);
    }
    out
}

/// Every program runs under one of four variants of the library, and the word size and the C library
/// each decide one part of which.
pub proof fn law_four_variants(class: u8, interp: Seq<char>)
    ensures
        variant_text(class, interp) == (if class == 1 {
            "32-"@
        } else {
            "64-"@
        }) + (if has(interp, "musl"@) {
            "musl"@
        } else {
            "glibc"@
        }),
{
    reveal_strlit("32-");
    reveal_strlit("64-");
    reveal_strlit("musl");
    reveal_strlit("glibc");
    reveal_strlit("32-musl");
    reveal_strlit("64-musl");
    reveal_strlit("32-glibc");
    reveal_strlit("64-glibc");
    assert("32-musl"@ =~= "32-"@ + "musl"@);
    assert("64-musl"@ =~= "64-"@ + "musl"@);
    assert("32-glibc"@ =~= "32-"@ + "glibc"@);
    assert("64-glibc"@ =~= "64-"@ + "glibc"@);
}

/// A text holds another one exactly if it is made up of something, the other text, and something more.
pub proof fn law_has(s: Seq<char>, before: Seq<char>, needle: Seq<char>, after: Seq<char>)
    ensures
        has(before + needle + after, needle),
        has(s, needle) ==> exists|x: Seq<char>, y: Seq<char>| s == #[trigger] (x + needle + y),
{
    let whole = before + needle + after;
    let n = before.len() as int;
    assert(whole.subrange(n, n + needle.len()) =~= needle);
    if has(s, needle) {
        let i = choose|i: int|
            0 <= i <= s.len() - needle.len() && #[trigger] s.subrange(i, i + needle.len()) == needle;
        let x = s.take(i);
        let y = s.skip(i + needle.len());
        assert(s =~= x + needle + y) by {
            assert forall|k: int| 0 <= k < s.len() implies s[k] == (x + needle + y)[k] by {
                if i <= k < i + needle.len() {
                    assert(s.subrange(i, i + needle.len())[k - i] == s[k]);
                }
            }
        }
    }
}

/// How many entries the header of a file says its table has.
pub open spec fn said_count(image: Seq<u8>) -> int {
    if byte_at(image, 4) == 2 {
        low_first(image, 56, 2)
    } else {
        low_first(image, 44, 2)
    }
}

/// Whether all of an entry of the table of a file lies in the file.
pub open spec fn lies_in(image: Seq<u8>, i: int) -> bool {
    table_start(image) + i * entry_len(image) + entry_len(image) <= image.len()
}

/// Whether an entry of the table of a file can be read and names no interpreter.
pub open spec fn is_passed_over(image: Seq<u8>, i: int) -> bool {
    lies_in(image, i) && type_of(image, i) != 3
}

/// Whether a file has a header of an ELF file, and its table lies where it can be sought.
pub open spec fn has_header(image: Seq<u8>) -> bool {
    &&& image.len() >= 64
    &&& image[0] == 0x7f
    &&& image[1] == 0x45
    &&& image[2] == 0x4c
    &&& image[3] == 0x46
    &&& table_start(image) <= i64::MAX
}

proof fn lemma_image_numbers(image: Seq<u8>, from: int, at: int)
    requires
        0 <= from,
        0 <= at,
    ensures
        from + at + 4 <= image.len() ==> u32_le(tail_from(image, from), at) == low_first(
            image,
            from + at,
            4,
        ),
        from + at + 8 <= image.len() ==> u64_le(tail_from(image, from), at) == low_first(
            image,
            from + at,
            8,
        ),
        from + at + 2 <= image.len() ==> u16_le(tail_from(image, from), at) == low_first(
            image,
            from + at,
            2,
        ),
        0 <= low_first(image, from + at, 2) < 0x1_0000,
        0 <= low_first(image, from + at, 4) < 0x1_0000_0000,
        0 <= low_first(image, from + at, 8) < 0x1_0000_0000_0000_0000,
{
    reveal_with_fuel(low_first, 9);
    let raw = tail_from(image, from);
    assert(forall|k: int| 0 <= k && from + k < image.len() ==> raw[k] == byte_at(image, from + k));
}

proof fn lemma_interp_table(image: Seq<u8>)
    ensures
        has_header(image) ==> {
            let t = interp_table(image.take(64));
            &&& t is Some
            &&& t->0.class == image[4]
            &&& t->0.offset == table_start(image)
            &&& t->0.entsize == entry_len(image)
            &&& t->0.num == said_count(image)
        },
        image.len() >= 64 && !has_header(image) ==> {
            let t = interp_table(image.take(64));
            t is None || t->0.offset > i64::MAX
        },
{
    if image.len() >= 64 {
        let hdr = image.take(64);
        let m = elf_magic();
        assert(hdr.take(4)[0] == image[0] && hdr.take(4)[1] == image[1] && hdr.take(4)[2] == image[2]
            && hdr.take(4)[3] == image[3]);
        if image[0] == 0x7f && image[1] == 0x45 && image[2] == 0x4c && image[3] == 0x46 {
            assert(hdr.take(4) =~= m);
        }
        if hdr.take(4) == m {
            assert(hdr.take(4)[0] == m[0] && hdr.take(4)[1] == m[1] && hdr.take(4)[2] == m[2]
                && hdr.take(4)[3] == m[3]);
        }
        assert(tail_from(image, 0) =~= image);
        lemma_image_numbers(image, 0, 28);
        lemma_image_numbers(image, 0, 32);
        lemma_image_numbers(image, 0, 42);
        lemma_image_numbers(image, 0, 44);
        lemma_image_numbers(image, 0, 54);
        lemma_image_numbers(image, 0, 56);
        assert(forall|k: int| 0 <= k < 64 ==> hdr[k] == image[k]);
    }
}

/// A file that has no header of an ELF file, or whose table cannot be sought, is no program; one whose header
/// says that it has no entries is a program without an interpreter; and one with entries of fewer than four
/// bytes is malformed if there is one to read.
pub proof fn law_programs_by_header(image: Seq<u8>)
    ensures
        !has_header(image) ==> found_in(image) == Found::NoProgram,
        has_header(image) && said_count(image) == 0 ==> found_in(image) == Found::NoInterp(image[4]),
        has_header(image) && said_count(image) > 0 && entry_len(image) < 4 ==> found_in(image) == (
        if entry_len(image) == 0 || lies_in(image, 0) {
            Found::Malformed
        } else {
            Found::NoProgram
        }),
{
    lemma_interp_table(image);
    if has_header(image) {
        let t = interp_table(image.take(64))->0;
        assert(0 * t.entsize == 0);
        reveal_with_fuel(scanned, 2);
    }
}

proof fn lemma_scanned(image: Seq<u8>, t: InterpTable, from: int, to: int)
    requires
        t.offset == table_start(image),
        t.entsize == entry_len(image),
        entry_len(image) >= 4,
        0 <= from <= to <= t.num,
        forall|j: int| from <= j < to ==> #[trigger] is_passed_over(image, j),
    ensures
        scanned(t, tail_from(image, t.offset as int), from) == scanned(
            t,
            tail_from(image, t.offset as int),
            to,
        ),
    decreases to - from,
{
    if from < to {
        assert(is_passed_over(image, from));
        let at = from * t.entsize;
        assert(0 <= at) by (nonlinear_arith)
            requires
                0 <= from,
                at == from * t.entsize,
                0 <= t.entsize,
        ;
        lemma_image_numbers(image, t.offset as int, at);
        lemma_scanned(image, t, from + 1, to);
    }
}

/// A program none of whose entries names an interpreter has none.
pub proof fn law_program_without_interpreter(image: Seq<u8>)
    requires
        has_header(image),
        entry_len(image) >= 4,
        forall|j: int| 0 <= j < said_count(image) ==> #[trigger] is_passed_over(image, j),
    ensures
        found_in(image) == Found::NoInterp(image[4]),
{
    lemma_interp_table(image);
    let t = interp_table(image.take(64))->0;
    lemma_scanned(image, t, 0, t.num as int);
}

/// The first entry that names an interpreter decides: it must be long enough, and what stands in the file at
/// the offset and in the size that it gives is the interpreter's path. A file that ends in front of an entry
/// that has to be read, or in front of the end of the path, is no program.
pub proof fn law_program_by_first_entry(image: Seq<u8>, i: int)
    requires
        has_header(image),
        entry_len(image) >= 4,
        0 <= i < said_count(image),
        forall|j: int| 0 <= j < i ==> #[trigger] is_passed_over(image, j),
    ensures
        !lies_in(image, i) ==> found_in(image) == Found::NoProgram,
        lies_in(image, i) && type_of(image, i) == 3 ==> {
            let at = table_start(image) + i * entry_len(image);
            let wide = image[4] == 2;
            let place = if wide {
                low_first(image, at + 8, 8)
            } else {
                low_first(image, at + 4, 4)
            };
            let size = if wide {
                low_first(image, at + 32, 8)
            } else {
                low_first(image, at + 16, 4)
            };
            let least: int = if wide {
                40
            } else {
                20
            };
            if entry_len(image) < least {
                found_in(image) == Found::Malformed
            } else if place > i64::MAX || (size > 0 && place + size > image.len()) {
                found_in(image) == Found::NoProgram
            } else {
                &&& found_in(image) matches Found::Interp(class, raw)
                &&& class == image[4]
                &&& raw.len() == size
                &&& forall|k: int| 0 <= k < size ==> #[trigger] raw[k] == image[place + k]
            }
        },
{
    lemma_interp_table(image);
    let t = interp_table(image.take(64))->0;
    lemma_scanned(image, t, 0, i);
    let off = t.offset as int;
    let at = i * t.entsize;
    assert(0 <= at) by (nonlinear_arith)
        requires
            0 <= i,
            at == i * t.entsize,
            0 <= t.entsize,
    ;
    lemma_image_numbers(image, off, at);
    lemma_image_numbers(image, off, at + 4);
    lemma_image_numbers(image, off, at + 8);
    lemma_image_numbers(image, off, at + 16);
    lemma_image_numbers(image, off, at + 32);
    if let Found::Interp(_, raw) = found_in(image) {
        if raw.len() == 0 {
            assert(raw =~= Seq::empty());
        }
    }
}

/// What a file is to the choice of the library follows from what was found in it: the interpreter's path is
/// read as text, without the zeros around it.
pub proof fn law_probed(image: Seq<u8>)
    ensures
        found_in(image) == Found::NoProgram ==> probed(image) == ProbeValue::NoProgram,
        found_in(image) == Found::Malformed ==> probed(image) == ProbeValue::Malformed,
        found_in(image) matches Found::NoInterp(class) ==> probed(image) == ProbeValue::Program(
            class,
            Seq::empty(),
        ),
        found_in(image) matches Found::Interp(class, raw) ==> probed(image) == ProbeValue::Program(
            class,
            trim_both(lossy(raw), '\0'),
        ),
{
}

/// A library is looked for in the two system directories, then below the install prefix where there is one,
/// and then in each of the given directories in their order.
pub proof fn law_places(name: Seq<char>, prefix: Option<Seq<char>>, dirs: Seq<Seq<char>>)
    ensures
        ({
            let all = places(name, prefix, dirs);
            let at: int = if prefix is Some {
                3
            } else {
                2
            };
            &&& all.len() == at + dirs.len()
            &&& all[0] == "/usr/lib/"@ + name
            &&& all[1] == "/usr/local/lib/"@ + name
            &&& prefix is Some ==> all[2] == prefix->0 + "/lib/"@ + name
            &&& forall|k: int|
                0 <= k < dirs.len() ==> all[at + k] == joined_path(#[trigger] dirs[k], name)
        }),
{
}

/// Beside a program are its own directory and the one above, as far as there are such.
pub proof fn law_beside(exe: Seq<char>)
    ensures
        beside(None).len() == 0,
        parent_of(exe) is None ==> beside(Some(exe)).len() == 0,
        parent_of(exe) matches Some(dir) ==> {
            &&& beside(Some(exe)).len() == (if parent_of(dir) is Some {
                2int
            } else {
                1
            })
            &&& beside(Some(exe))[0] == dir
            &&& parent_of(dir) is Some ==> beside(Some(exe))[1] == parent_of(dir)->0
        },
{
}

} // verus!
