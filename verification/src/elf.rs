//! What the headers of an ELF file say: machine, linkage and program interpreter.
//!
//! The headers are read piece by piece: each function here looks at one piece and says which part of
//! the file is wanted next, or what the file is.
use vstd::prelude::*;

use crate::bytes::{same, trimmed};
#[allow(unused_imports)]
use crate::bytes::trim_end;

verus! {

/// Machine number of 64-bit ARM.
pub const EM_AARCH64: u16 = 183;

/// Machine number of 64-bit x86.
pub const EM_X86_64: u16 = 62;

/// Machine number of 32-bit ARM.
pub const EM_ARM: u16 = 40;

/// Machine number of 32-bit x86.
pub const EM_386: u16 = 3;

/// The number of bytes of the file header that are read.
pub const HEADER_LEN: usize = 64;

/// The type of the program header entry that names the interpreter.
pub const PT_INTERP: u32 = 3;

/// The order in which a host keeps the bytes of a number.
#[derive(Clone, Copy, PartialEq, Eq, Structural)]
pub enum ByteOrder {
    Little,
    Big,
}

/// What a program file is.
pub struct ElfInfo {
    pub machine: u16,
    /// Whether the file names no interpreter.
    pub is_static: bool,
    /// The path of the interpreter; empty where there is none or it cannot be read.
    pub interp: Vec<u8>,
}

/// What a program file is, as mathematical values.
pub struct ElfFacts {
    pub machine: u16,
    pub is_static: bool,
    pub interp: Seq<u8>,
}

impl View for ElfInfo {
    type V = ElfFacts;

    open spec fn view(&self) -> ElfFacts {
        ElfFacts { machine: self.machine, is_static: self.is_static, interp: self.interp@ }
    }
}

/// Where the program header table of a file lies.
#[derive(Clone, Copy, PartialEq, Eq, Structural)]
pub struct ProgramTable {
    pub machine: u16,
    pub is_64: bool,
    pub offset: u64,
    pub entsize: u16,
    pub num: u16,
}

impl ProgramTable {
    /// The least size of an entry.
    pub open spec fn min_entsize(&self) -> int {
        if self.is_64 {
            56
        } else {
            32
        }
    }

    /// A table that is worth reading: it has entries, and each can hold the fields that are read.
    pub open spec fn wf(&self) -> bool {
        self.num > 0 && self.entsize >= self.min_entsize()
    }

    /// The number of bytes of the table.
    pub open spec fn size(&self) -> int {
        self.entsize * self.num
    }

    /// The number of bytes of the table.
    pub fn byte_size(&self) -> (r: usize)
        ensures
            r == self.size(),
    {
        proof {
            assert(0 <= self.entsize * self.num <= 65535 * 65535) by (nonlinear_arith)
                requires
                    0 <= self.entsize <= 65535,
                    0 <= self.num <= 65535,
            ;
        }
        self.entsize as usize * self.num as usize
    }
}

/// What the file header says.
#[derive(Clone, Copy, PartialEq, Eq, Structural)]
pub enum HeaderStep {
    /// The file is no ELF file.
    Reject,
    /// The file has no usable program header table, and so counts as static.
    Static(u16),
    /// The program header table is wanted.
    Table(ProgramTable),
}

/// What the program header table says.
#[derive(Clone, Copy, PartialEq, Eq, Structural)]
pub enum TableStep {
    /// There is no interpreter.
    Static,
    /// There is an interpreter, but the size of its path is out of range.
    Unreadable,
    /// The interpreter's path is wanted: its offset in the file and its size.
    Interp(u64, u64),
}

/// The part of a file that is to be read next to find out what the file is.
#[derive(Clone, Copy, PartialEq, Eq, Structural)]
pub enum Stage {
    /// The file header.
    Header,
    /// The program header table.
    Table(ProgramTable),
    /// The interpreter's path: the machine of the file, the offset and the size.
    Interp(u16, u64, u64),
}

impl Stage {
    /// A part that can be asked for.
    pub open spec fn wf(&self) -> bool {
        match self {
            Stage::Header => true,
            Stage::Table(table) => table.wf(),
            Stage::Interp(_, _, size) => 0 < *size < 4096,
        }
    }

    /// Where the part lies in the file.
    pub open spec fn offset(&self) -> u64 {
        match self {
            Stage::Header => 0,
            Stage::Table(table) => table.offset,
            Stage::Interp(_, offset, _) => *offset,
        }
    }

    /// How many bytes the part has.
    pub open spec fn size(&self) -> int {
        match self {
            Stage::Header => HEADER_LEN as int,
            Stage::Table(table) => table.size(),
            Stage::Interp(_, _, size) => *size as int,
        }
    }

    /// Where the part lies in the file, and how many bytes it has.
    pub fn extent(&self) -> (r: (u64, usize))
        requires
            self.wf(),
        ensures
            r.0 == self.offset(),
            r.1 == self.size(),
    {
        match self {
            Stage::Header => (0, HEADER_LEN),
            Stage::Table(table) => (table.offset, table.byte_size()),
            Stage::Interp(_, offset, size) => (*offset, *size as usize),
        }
    }
}

/// What is known of a file once a part of it was read; `I` is what the file is.
pub enum Progress<I> {
    /// Another part is wanted.
    More(Stage),
    /// What the file is; none where it is no ELF file.
    Known(Option<I>),
}

/// What is known of a file, as mathematical values.
pub open spec fn progress_value(p: Progress<ElfInfo>) -> Progress<ElfFacts> {
    match p {
        Progress::More(stage) => Progress::More(stage),
        Progress::Known(Some(info)) => Progress::Known(Some(info@)),
        Progress::Known(None) => Progress::Known(None),
    }
}

/// The 16-bit number at `i`, least significant byte first.
pub open spec fn u16_le(s: Seq<u8>, i: int) -> int {
    s[i] + 0x100 * s[i + 1]
}

/// The 32-bit number at `i`, least significant byte first.
pub open spec fn u32_le(s: Seq<u8>, i: int) -> int {
    u16_le(s, i) + 0x1_0000 * u16_le(s, i + 2)
}

/// The 64-bit number at `i`, least significant byte first.
pub open spec fn u64_le(s: Seq<u8>, i: int) -> int {
    u32_le(s, i) + 0x1_0000_0000 * u32_le(s, i + 4)
}

/// The 16-bit number at `i` in the host's order.
pub open spec fn u16_host(order: ByteOrder, s: Seq<u8>, i: int) -> int {
    match order {
        ByteOrder::Little => u16_le(s, i),
        ByteOrder::Big => 0x100 * s[i] + s[i + 1],
    }
}

/// The 64-bit number at `i` in the host's order.
pub open spec fn u64_host(order: ByteOrder, s: Seq<u8>, i: int) -> int {
    match order {
        ByteOrder::Little => u64_le(s, i),
        ByteOrder::Big => u64_le(s.subrange(i, i + 8).reverse(), 0),
    }
}

/// The first four bytes of every ELF file.
pub open spec fn elf_magic() -> Seq<u8> {
    seq![0x7f, 0x45, 0x4c, 0x46]
}

/// The table that a file header describes.
pub open spec fn table_of(order: ByteOrder, hdr: Seq<u8>) -> ProgramTable {
    if hdr[4] == 2 {
        ProgramTable {
            machine: u16_host(order, hdr, 18) as u16,
            is_64: true,
            offset: u64_le(hdr, 32) as u64,
            entsize: u16_le(hdr, 54) as u16,
            num: u16_le(hdr, 56) as u16,
        }
    } else {
        ProgramTable {
            machine: u16_host(order, hdr, 18) as u16,
            is_64: false,
            offset: u32_le(hdr, 28) as u64,
            entsize: u16_le(hdr, 42) as u16,
            num: u16_le(hdr, 44) as u16,
        }
    }
}

/// What a file header of which `n` bytes could be read says.
pub open spec fn header_step(order: ByteOrder, hdr: Seq<u8>, n: int) -> HeaderStep {
    let table = table_of(order, hdr);
    if n < 52 || hdr.take(4) != elf_magic() || (hdr[4] != 1 && hdr[4] != 2) {
        HeaderStep::Reject
    } else if table.wf() {
        HeaderStep::Table(table)
    } else {
        HeaderStep::Static(table.machine)
    }
}

/// The first entry from `from` on that names an interpreter, or the number of entries.
pub open spec fn interp_entry(phdrs: Seq<u8>, entsize: int, num: int, from: int) -> int
    decreases num - from,
{
    if from >= num {
        num
    } else if u32_le(phdrs, from * entsize) == PT_INTERP {
        from
    } else {
        interp_entry(phdrs, entsize, num, from + 1)
    }
}

/// What a program header table says.
pub open spec fn table_step(order: ByteOrder, table: ProgramTable, phdrs: Seq<u8>) -> TableStep {
    let i = interp_entry(phdrs, table.entsize as int, table.num as int, 0);
    let at = i * table.entsize;
    let (offset, size) = if table.is_64 {
        (u64_host(order, phdrs, at + 8), u64_host(order, phdrs, at + 32))
    } else {
        (u32_le(phdrs, at + 4), u32_le(phdrs, at + 16))
    };
    if i >= table.num {
        TableStep::Static
    } else if 0 < size < 4096 {
        TableStep::Interp(offset as u64, size as u64)
    } else {
        TableStep::Unreadable
    }
}

/// `len` bytes of a file from `offset` on, zero where the file has ended.
pub open spec fn window(image: Seq<u8>, offset: int, len: int) -> Seq<u8> {
    Seq::new(
        len as nat,
        |i: int|
            if offset + i < image.len() {
                image[offset + i]
            } else {
                0
            },
    )
}

/// The number of bytes of a file header that a file can give.
pub open spec fn header_bytes(image: Seq<u8>) -> int {
    if image.len() < HEADER_LEN {
        image.len() as int
    } else {
        HEADER_LEN as int
    }
}

/// What a file with the given contents is; none where it is no ELF file.
pub open spec fn elf_facts(order: ByteOrder, image: Seq<u8>) -> Option<ElfFacts> {
    match header_step(order, window(image, 0, HEADER_LEN as int), header_bytes(image)) {
        HeaderStep::Reject => None,
        HeaderStep::Static(machine) => Some(
            ElfFacts { machine, is_static: true, interp: Seq::empty() },
        ),
        HeaderStep::Table(table) => Some(
            match table_step(order, table, window(image, table.offset as int, table.size())) {
                TableStep::Static => ElfFacts {
                    machine: table.machine,
                    is_static: true,
                    interp: Seq::empty(),
                },
                TableStep::Unreadable => ElfFacts {
                    machine: table.machine,
                    is_static: false,
                    interp: Seq::empty(),
                },
                TableStep::Interp(offset, size) => ElfFacts {
                    machine: table.machine,
                    is_static: false,
                    interp: trim_end(window(image, offset as int, size as int), 0),
                },
            },
        ),
    }
}

/// What a part of a file says, `n` bytes of which could be read.
pub open spec fn probed(order: ByteOrder, stage: Stage, part: Seq<u8>, n: int) -> Progress<ElfFacts> {
    match stage {
        Stage::Header => match header_step(order, part, n) {
            HeaderStep::Reject => Progress::Known(None),
            HeaderStep::Static(machine) => Progress::Known(
                Some(ElfFacts { machine, is_static: true, interp: Seq::empty() }),
            ),
            HeaderStep::Table(table) => Progress::More(Stage::Table(table)),
        },
        Stage::Table(table) => match table_step(order, table, part) {
            TableStep::Static => Progress::Known(
                Some(ElfFacts { machine: table.machine, is_static: true, interp: Seq::empty() }),
            ),
            TableStep::Unreadable => Progress::Known(
                Some(ElfFacts { machine: table.machine, is_static: false, interp: Seq::empty() }),
            ),
            TableStep::Interp(offset, size) => Progress::More(
                Stage::Interp(table.machine, offset, size),
            ),
        },
        Stage::Interp(machine, _, _) => Progress::Known(
            Some(ElfFacts { machine, is_static: false, interp: trim_end(part, 0) }),
        ),
    }
}

/// Whether the parts in front of a stage lead to it.
pub open spec fn is_reached(order: ByteOrder, image: Seq<u8>, stage: Stage) -> bool {
    let head = header_step(order, window(image, 0, HEADER_LEN as int), header_bytes(image));
    match stage {
        Stage::Header => true,
        Stage::Table(table) => head == HeaderStep::Table(table),
        Stage::Interp(machine, offset, size) => match head {
            HeaderStep::Table(table) => table.machine == machine && table_step(
                order,
                table,
                window(image, table.offset as int, table.size()),
            ) == TableStep::Interp(offset, size),
            _ => false,
        },
    }
}

/// How many parts may follow a stage.
pub open spec fn stage_rank(stage: Stage) -> int {
    match stage {
        Stage::Header => 2,
        Stage::Table(_) => 1,
        Stage::Interp(_, _, _) => 0,
    }
}

/// Reading a file part by part, each part where the one before it says, leads to what the file is: a part
/// that is reached either settles it or leads on, at most twice, to another one that is reached.
pub proof fn law_parts_lead_to_the_facts(order: ByteOrder, image: Seq<u8>, stage: Stage)
    requires
        is_reached(order, image, stage),
    ensures
        match probed(
            order,
            stage,
            window(image, stage.offset() as int, stage.size()),
            header_bytes(image),
        ) {
            Progress::Known(facts) => facts == elf_facts(order, image),
            Progress::More(more) => is_reached(order, image, more) && stage_rank(more)
                < stage_rank(stage),
        },
{
}

/// The 16-bit number at `i`, least significant byte first.
pub fn get_u16(s: &[u8], i: usize) -> (r: u16)
    requires
        i + 2 <= s@.len(),
    ensures
        r == u16_le(s@, i as int),
{
    s[i] as u16 + 0x100 * s[i + 1] as u16
}

/// The 32-bit number at `i`, least significant byte first.
pub fn get_u32(s: &[u8], i: usize) -> (r: u32)
    requires
        i + 4 <= s@.len(),
    ensures
        r == u32_le(s@, i as int),
{
    proof {
        assert(s.len() == s@.len());
    }
    get_u16(s, i) as u32 + 0x1_0000 * get_u16(s, i + 2) as u32
}

/// The 64-bit number at `i`, least significant byte first.
pub fn get_u64(s: &[u8], i: usize) -> (r: u64)
    requires
        i + 8 <= s@.len(),
    ensures
        r == u64_le(s@, i as int),
{
    proof {
        assert(s.len() == s@.len());
    }
    get_u32(s, i) as u64 + 0x1_0000_0000 * get_u32(s, i + 4) as u64
}

fn get_u16_host(order: ByteOrder, s: &[u8], i: usize) -> (r: u16)
    requires
        i + 2 <= s@.len(),
    ensures
        r == u16_host(order, s@, i as int),
{
    match order {
        ByteOrder::Little => get_u16(s, i),
        ByteOrder::Big => 0x100 * s[i] as u16 + s[i + 1] as u16,
    }
}

fn get_u64_host(order: ByteOrder, s: &[u8], i: usize) -> (r: u64)
    requires
        i + 8 <= s@.len(),
    ensures
        r == u64_host(order, s@, i as int),
{
    proof {
        assert(s.len() == s@.len());
    }
    match order {
        ByteOrder::Little => get_u64(s, i),
        ByteOrder::Big => {
            let back: [u8; 8] = [
                s[i + 7],
                s[i + 6],
                s[i + 5],
                s[i + 4],
                s[i + 3],
                s[i + 2],
                s[i + 1],
                s[i],
            ];
            proof {
                assert(back@ =~= s@.subrange(i as int, i + 8).reverse());
            }
            get_u64(back.as_slice(), 0)
        },
    }
}

/// What a file header says, `n` being the number of its bytes that the file could give.
pub fn probe_header(order: ByteOrder, hdr: &[u8], n: i64) -> (r: HeaderStep)
    requires
        hdr@.len() == HEADER_LEN,
    ensures
        r == header_step(order, hdr@, n as int),
        r matches HeaderStep::Table(table) ==> table.wf(),
{
    let magic: [u8; 4] = [0x7f, 0x45, 0x4c, 0x46];
    proof {
        assert(magic@ =~= elf_magic());
        assert(hdr@.subrange(0, 4) =~= hdr@.take(4));
    }
    if n < 52 || !same(vstd::slice::slice_subrange(hdr, 0, 4), magic.as_slice()) {
        return HeaderStep::Reject;
    }
    if hdr[4] != 1 && hdr[4] != 2 {
        return HeaderStep::Reject;
    }
    let machine: u16 = get_u16_host(order, hdr, 18);
    let table = if hdr[4] == 2 {
        ProgramTable {
            machine,
            is_64: true,
            offset: get_u64(hdr, 32),
            entsize: get_u16(hdr, 54),
            num: get_u16(hdr, 56),
        }
    } else {
        ProgramTable {
            machine,
            is_64: false,
            offset: get_u32(hdr, 28) as u64,
            entsize: get_u16(hdr, 42),
            num: get_u16(hdr, 44),
        }
    };
    let least: u16 = if table.is_64 {
        56
    } else {
        32
    };
    if table.num == 0 || table.entsize < least {
        HeaderStep::Static(machine)
    } else {
        HeaderStep::Table(table)
    }
}

proof fn lemma_entry_inside(i: int, num: int, entsize: int)
    requires
        0 <= i < num,
        0 <= entsize,
    ensures
        0 <= i * entsize,
        i * entsize + entsize <= num * entsize,
{
    assert(0 <= i * entsize) by (nonlinear_arith)
        requires
            0 <= i,
            0 <= entsize,
    ;
    assert(i * entsize + entsize <= num * entsize) by (nonlinear_arith)
        requires
            i + 1 <= num,
            0 <= entsize,
    ;
}

/// What a program header table says.
pub fn probe_table(order: ByteOrder, table: ProgramTable, phdrs: &[u8]) -> (r: TableStep)
    requires
        table.wf(),
        phdrs@.len() == table.size(),
    ensures
        r == table_step(order, table, phdrs@),
        r matches TableStep::Interp(_, size) ==> 0 < size < 4096,
{
    let entsize: usize = table.entsize as usize;
    let num: usize = table.num as usize;
    let mut i: usize = 0;
    let mut at: usize = 0;
    while i < num
        invariant
            i <= num,
            at == i * entsize,
            entsize == table.entsize,
            num == table.num,
            table.wf(),
            phdrs@.len() == entsize * num,
            interp_entry(phdrs@, entsize as int, num as int, 0) == interp_entry(
                phdrs@,
                entsize as int,
                num as int,
                i as int,
            ),
        decreases num - i,
    {
        proof {
            lemma_entry_inside(i as int, num as int, entsize as int);
            assert(num * entsize == entsize * num) by (nonlinear_arith);
            assert(phdrs.len() == phdrs@.len());
        }
        if get_u32(phdrs, at) == PT_INTERP {
            let (offset, size): (u64, u64) = if table.is_64 {
                (get_u64_host(order, phdrs, at + 8), get_u64_host(order, phdrs, at + 32))
            } else {
                (get_u32(phdrs, at + 4) as u64, get_u32(phdrs, at + 16) as u64)
            };
            return if size > 0 && size < 4096 {
                TableStep::Interp(offset, size)
            } else {
                TableStep::Unreadable
            };
        }
        proof {
            assert((i + 1) * entsize == i * entsize + entsize) by (nonlinear_arith);
        }
        at += entsize;
        i += 1;
    }
    TableStep::Static
}

/// The interpreter's path in the bytes that the file holds of it: zeros at the end are no part of it.
pub fn probe_interp(raw: &[u8]) -> (r: Vec<u8>)
    ensures
        r@ == trim_end(raw@, 0),
{
    trimmed(raw, 0)
}

fn read_window(image: &[u8], offset: u64, len: usize) -> (r: Vec<u8>)
    ensures
        r@ == window(image@, offset as int, len as int),
{
    let mut out: Vec<u8> = Vec::new();
    let mut i: usize = 0;
    while i < len
        invariant
            i <= len,
            out@ == window(image@, offset as int, i as int),
        decreases len - i,
    {
        let b: u8 = if offset < image.len() as u64 && (i as u64) < image.len() as u64 - offset {
            image[offset as usize + i]
        } else {
            0
        };
        out.push(b);
        proof {
            assert(out@ =~= window(image@, offset as int, i + 1));
        }
        i += 1;
    }
    out
}

/// What a part of a file says, `n` being the number of its bytes that the file could give. The parts are
/// the header, the program header table and the path of the interpreter, as far as they are wanted.
pub fn probe(order: ByteOrder, stage: Stage, part: &[u8], n: i64) -> (r: Progress<ElfInfo>)
    requires
        stage.wf(),
        part@.len() == stage.size(),
    ensures
        progress_value(r) == probed(order, stage, part@, n as int),
        r matches Progress::More(more) ==> more.wf(),
{
    match stage {
        Stage::Header => match probe_header(order, part, n) {
            HeaderStep::Reject => Progress::Known(None),
            HeaderStep::Static(machine) => Progress::Known(
                Some(ElfInfo { machine, is_static: true, interp: Vec::new() }),
            ),
            HeaderStep::Table(table) => Progress::More(Stage::Table(table)),
        },
        Stage::Table(table) => match probe_table(order, table, part) {
            TableStep::Static => Progress::Known(
                Some(ElfInfo { machine: table.machine, is_static: true, interp: Vec::new() }),
            ),
            TableStep::Unreadable => Progress::Known(
                Some(ElfInfo { machine: table.machine, is_static: false, interp: Vec::new() }),
            ),
            TableStep::Interp(offset, size) => Progress::More(
                Stage::Interp(table.machine, offset, size),
            ),
        },
        Stage::Interp(machine, _, _) => Progress::Known(
            Some(ElfInfo { machine, is_static: false, interp: probe_interp(part) }),
        ),
    }
}

/// What a file with the given contents is; none where it is no ELF file.
pub fn read_elf_info(order: ByteOrder, image: &[u8]) -> (r: Option<ElfInfo>)
    ensures
        (match r {
            Some(info) => Some(info@),
            None => None,
        }) == elf_facts(order, image@),
{
    let n: i64 = if image.len() < HEADER_LEN {
        image.len() as i64
    } else {
        HEADER_LEN as i64
    };
    let mut stage = Stage::Header;
    loop
        invariant
            n == header_bytes(image@),
            stage.wf(),
            is_reached(order, image@, stage),
        decreases stage_rank(stage),
    {
        let (offset, size) = stage.extent();
        let part = read_window(image, offset, size);
        proof {
            law_parts_lead_to_the_facts(order, image@, stage);
        }
        match probe(order, stage, part.as_slice(), n) {
            Progress::More(more) => {
                stage = more;
            },
            Progress::Known(info) => {
                return info;
            },
        }
    }
}

/// A byte of a file, zero where the file has ended.
pub open spec fn byte_at(image: Seq<u8>, k: int) -> u8 {
    if 0 <= k < image.len() {
        image[k]
    } else {
        0
    }
}

/// The number that `n` bytes of a file from `at` on make, the least significant first.
pub open spec fn low_first(image: Seq<u8>, at: int, n: nat) -> int
    decreases n,
{
    if n == 0 {
        0
    } else {
        byte_at(image, at) + 256 * low_first(image, at + 1, (n - 1) as nat)
    }
}

/// The number that `n` bytes of a file from `at` on make, the most significant first.
pub open spec fn high_first(image: Seq<u8>, at: int, n: nat) -> int
    decreases n,
{
    if n == 0 {
        0
    } else {
        256 * high_first(image, at, (n - 1) as nat) + byte_at(image, at + n - 1)
    }
}

/// The number that `n` bytes of a file from `at` on make in the host's order.
pub open spec fn in_host_order(order: ByteOrder, image: Seq<u8>, at: int, n: nat) -> int {
    match order {
        ByteOrder::Little => low_first(image, at, n),
        ByteOrder::Big => high_first(image, at, n),
    }
}

/// Whether a text is what stands in `size` bytes of a file from `at` on, without the zeros at their end.
pub open spec fn stands_at(text: Seq<u8>, image: Seq<u8>, at: int, size: int) -> bool {
    &&& text.len() <= size
    &&& forall|k: int| 0 <= k < text.len() ==> #[trigger] text[k] == byte_at(image, at + k)
    &&& forall|k: int| text.len() <= k < size ==> #[trigger] byte_at(image, at + k) == 0
    &&& text.len() > 0 ==> text.last() != 0
}

/// A file is taken for a program exactly if it has at least 52 bytes, begins with the four bytes of every
/// ELF file, and is of the 32-bit or the 64-bit class.
pub proof fn law_which_files_are_programs(order: ByteOrder, image: Seq<u8>)
    ensures
        elf_facts(order, image) is Some <==> {
            &&& image.len() >= 52
            &&& image[0] == 0x7f
            &&& image[1] == 0x45
            &&& image[2] == 0x4c
            &&& image[3] == 0x46
            &&& (image[4] == 1 || image[4] == 2)
        },
{
    let hdr = window(image, 0, HEADER_LEN as int);
    if image.len() >= 52 {
        assert(forall|k: int| 0 <= k < 52 ==> hdr[k] == image[k]);
        let m = elf_magic();
        if hdr.take(4) == m {
            assert(hdr.take(4)[0] == m[0] && hdr.take(4)[1] == m[1] && hdr.take(4)[2] == m[2]
                && hdr.take(4)[3] == m[3]);
        }
        if image[0] == 0x7f && image[1] == 0x45 && image[2] == 0x4c && image[3] == 0x46 {
            assert(hdr.take(4) =~= m);
        }
    }
}

/// The numbers of a part of a file are those of the file.
proof fn lemma_window_numbers(order: ByteOrder, image: Seq<u8>, from: int, len: int, at: int)
    requires
        0 <= from,
        0 <= at,
    ensures
        at + 2 <= len ==> u16_le(window(image, from, len), at) == low_first(image, from + at, 2),
        at + 2 <= len ==> u16_host(order, window(image, from, len), at) == in_host_order(
            order,
            image,
            from + at,
            2,
        ),
        at + 4 <= len ==> u32_le(window(image, from, len), at) == low_first(image, from + at, 4),
        at + 8 <= len ==> u64_le(window(image, from, len), at) == low_first(image, from + at, 8),
        at + 8 <= len ==> u64_host(order, window(image, from, len), at) == in_host_order(
            order,
            image,
            from + at,
            8,
        ),
        0 <= low_first(image, from + at, 2) < 0x1_0000,
        0 <= low_first(image, from + at, 4) < 0x1_0000_0000,
        0 <= low_first(image, from + at, 8) < 0x1_0000_0000_0000_0000,
        0 <= in_host_order(order, image, from + at, 2) < 0x1_0000,
        0 <= in_host_order(order, image, from + at, 8) < 0x1_0000_0000_0000_0000,
{
    reveal_with_fuel(low_first, 9);
    reveal_with_fuel(high_first, 9);
    let w = window(image, from, len);
    assert(forall|k: int| 0 <= k < len ==> w[k] == byte_at(image, from + k));
    if at + 8 <= len {
        let back = w.subrange(at, at + 8).reverse();
        assert(back[0] == w[at + 7] && back[1] == w[at + 6] && back[2] == w[at + 5] && back[3]
            == w[at + 4] && back[4] == w[at + 3] && back[5] == w[at + 2] && back[6] == w[at + 1]
            && back[7] == w[at]);
    }
}

/// What a byte string trimmed of zeros is.
proof fn lemma_trimmed(image: Seq<u8>, at: int, size: int)
    requires
        0 <= at,
        0 <= size,
    ensures
        stands_at(trim_end(window(image, at, size), 0), image, at, size),
    decreases size,
{
    let w = window(image, at, size);
    if size > 0 && w.last() == 0 {
        assert(w.drop_last() =~= window(image, at, size - 1));
        lemma_trimmed(image, at, size - 1);
        assert(byte_at(image, at + (size - 1)) == 0);
        let t = trim_end(w, 0);
        assert forall|k: int| t.len() <= k < size implies #[trigger] byte_at(image, at + k) == 0 by {
            if k < size - 1 {
                assert(byte_at(image, at + k) == 0);
            }
        }
    }
}

/// Where the table of a program starts.
pub open spec fn table_start(image: Seq<u8>) -> int {
    if byte_at(image, 4) == 2 {
        low_first(image, 32, 8)
    } else {
        low_first(image, 28, 4)
    }
}

/// How many bytes an entry of the table of a program has.
pub open spec fn entry_len(image: Seq<u8>) -> int {
    if byte_at(image, 4) == 2 {
        low_first(image, 54, 2)
    } else {
        low_first(image, 42, 2)
    }
}

/// How many entries the table of a program has; none that is too short to be read counts.
pub open spec fn entry_count(image: Seq<u8>) -> int {
    if byte_at(image, 4) == 2 {
        if entry_len(image) < 56 {
            0
        } else {
            low_first(image, 56, 2)
        }
    } else if entry_len(image) < 32 {
        0
    } else {
        low_first(image, 44, 2)
    }
}

/// The type of an entry of the table of a program.
pub open spec fn type_of(image: Seq<u8>, i: int) -> int {
    low_first(image, table_start(image) + i * entry_len(image), 4)
}

/// Where the contents of an entry of the table of a program lie.
pub open spec fn place_of(order: ByteOrder, image: Seq<u8>, i: int) -> int {
    let at = table_start(image) + i * entry_len(image);
    if byte_at(image, 4) == 2 {
        in_host_order(order, image, at + 8, 8)
    } else {
        low_first(image, at + 4, 4)
    }
}

/// How many bytes the contents of an entry of the table of a program have.
pub open spec fn size_of_entry(order: ByteOrder, image: Seq<u8>, i: int) -> int {
    let at = table_start(image) + i * entry_len(image);
    if byte_at(image, 4) == 2 {
        in_host_order(order, image, at + 32, 8)
    } else {
        low_first(image, at + 16, 4)
    }
}

/// What the header of a program says is what stands in the file.
proof fn lemma_header(order: ByteOrder, image: Seq<u8>)
    requires
        elf_facts(order, image) is Some,
    ensures
        ({
            let table = table_of(order, window(image, 0, HEADER_LEN as int));
            &&& table.machine == in_host_order(order, image, 18, 2)
            &&& table.is_64 == (byte_at(image, 4) == 2)
            &&& table.offset == table_start(image)
            &&& table.entsize == entry_len(image)
            &&& table.wf() ==> table.num == entry_count(image)
            &&& table.wf() <==> entry_count(image) > 0
            &&& header_step(order, window(image, 0, HEADER_LEN as int), header_bytes(image)) == (
            if table.wf() {
                HeaderStep::Table(table)
            } else {
                HeaderStep::Static(table.machine)
            })
        }),
{
    let hdr = window(image, 0, HEADER_LEN as int);
    let len = HEADER_LEN as int;
    law_which_files_are_programs(order, image);
    assert(hdr[4] == image[4]);
    lemma_window_numbers(order, image, 0, len, 18);
    lemma_window_numbers(order, image, 0, len, 28);
    lemma_window_numbers(order, image, 0, len, 32);
    lemma_window_numbers(order, image, 0, len, 42);
    lemma_window_numbers(order, image, 0, len, 44);
    lemma_window_numbers(order, image, 0, len, 54);
    lemma_window_numbers(order, image, 0, len, 56);
}

/// What `interp_entry` gives is the first entry that names an interpreter, or the number of entries.
proof fn lemma_interp_entry(image: Seq<u8>, num: int, from: int)
    requires
        0 <= table_start(image),
        4 <= entry_len(image),
        0 <= from <= num,
    ensures
        ({
            let entsize = entry_len(image);
            let phdrs = window(image, table_start(image), entsize * num);
            let i = interp_entry(phdrs, entsize, num, from);
            &&& from <= i <= num
            &&& forall|j: int| from <= j < i ==> #[trigger] type_of(image, j) != 3
            &&& i < num ==> type_of(image, i) == 3
        }),
    decreases num - from,
{
    if from < num {
        let entsize = entry_len(image);
        let offset = table_start(image);
        lemma_entry_inside(from, num, entsize);
        assert(entsize * num == num * entsize) by (nonlinear_arith);
        lemma_window_numbers(ByteOrder::Little, image, offset, entsize * num, from * entsize);
        assert(u32_le(window(image, offset, entsize * num), from * entsize) == type_of(
            image,
            from,
        ));
        lemma_interp_entry(image, num, from + 1);
    }
}

/// A program's machine stands in its header, and a program is static exactly if no entry of its table is
/// of the type that names an interpreter; a static one has no interpreter.
pub proof fn law_static_without_interpreter(order: ByteOrder, image: Seq<u8>)
    requires
        elf_facts(order, image) is Some,
    ensures
        elf_facts(order, image)->0.machine == in_host_order(order, image, 18, 2),
        elf_facts(order, image)->0.is_static <==> forall|i: int|
            0 <= i < entry_count(image) ==> #[trigger] type_of(image, i) != 3,
        elf_facts(order, image)->0.is_static ==> elf_facts(order, image)->0.interp.len() == 0,
{
    lemma_header(order, image);
    let table = table_of(order, window(image, 0, HEADER_LEN as int));
    if table.wf() {
        let phdrs = window(image, table.offset as int, table.size());
        lemma_interp_entry(image, table.num as int, 0);
        let i = interp_entry(phdrs, table.entsize as int, table.num as int, 0);
        if i < table.num {
            assert(type_of(image, i) == 3);
        }
    }
}

/// The interpreter of a program is what the first entry of the type that names one places: the bytes at the
/// offset and in the size that this same entry gives, without the zeros at their end. A size of zero, or of
/// 4096 and more, gives none.
pub proof fn law_interpreter_of_first_entry(order: ByteOrder, image: Seq<u8>, i: int)
    requires
        elf_facts(order, image) is Some,
        0 <= i < entry_count(image),
        type_of(image, i) == 3,
        forall|j: int| 0 <= j < i ==> #[trigger] type_of(image, j) != 3,
    ensures
        !elf_facts(order, image)->0.is_static,
        0 < size_of_entry(order, image, i) < 4096 ==> stands_at(
            elf_facts(order, image)->0.interp,
            image,
            place_of(order, image, i),
            size_of_entry(order, image, i),
        ),
        !(0 < size_of_entry(order, image, i) < 4096) ==> elf_facts(order, image)->0.interp.len()
            == 0,
{
    lemma_header(order, image);
    let table = table_of(order, window(image, 0, HEADER_LEN as int));
    let offset = table.offset as int;
    let entsize = table.entsize as int;
    let num = table.num as int;
    let phdrs = window(image, offset, table.size());
    lemma_interp_entry(image, num, 0);
    let found = interp_entry(phdrs, entsize, num, 0);
    if found < i {
        assert(type_of(image, found) != 3);
    }
    assert(found == i);
    lemma_entry_inside(i, num, entsize);
    assert(num * entsize == entsize * num) by (nonlinear_arith);
    let at = i * entsize;
    lemma_window_numbers(order, image, offset, table.size(), at + 4);
    lemma_window_numbers(order, image, offset, table.size(), at + 8);
    lemma_window_numbers(order, image, offset, table.size(), at + 16);
    lemma_window_numbers(order, image, offset, table.size(), at + 32);
    let place = place_of(order, image, i);
    let size = size_of_entry(order, image, i);
    assert(offset + (at + 8) == offset + at + 8);
    assert(table_step(order, table, phdrs) == (if 0 < size < 4096 {
        TableStep::Interp(place as u64, size as u64)
    } else {
        TableStep::Unreadable
    }));
    if 0 < size < 4096 {
        lemma_trimmed(image, place, size);
    }
}

/// Reading starts with the first 64 bytes of a file; a table is read where the header places it, with as
/// many bytes as its entries have together; and the path of an interpreter where its entry places it.
pub proof fn law_parts_of_a_file(table: ProgramTable, machine: u16, offset: u64, size: u64)
    ensures
        Stage::Header.offset() == 0,
        Stage::Header.size() == 64,
        Stage::Table(table).offset() == table.offset,
        Stage::Table(table).size() == table.num * table.entsize,
        Stage::Interp(machine, offset, size).offset() == offset,
        Stage::Interp(machine, offset, size).size() == size,
{
    assert(table.num * table.entsize == table.entsize * table.num) by (nonlinear_arith);
}

} // verus!
