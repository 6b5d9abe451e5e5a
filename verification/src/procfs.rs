//! The files below `/proc` that the program sees instead of the host's.
use vstd::prelude::*;

use crate::bytes::{append, find_first, join, part, same, starts_with};
#[allow(unused_imports)]
use crate::bytes::{first_of, lemma_first_of, lemma_first_of_is, lit, slice_opt};
#[allow(unused_imports)]
use crate::config::Settings;
use crate::translate::is_covered;
#[allow(unused_imports)]
use crate::translate::{covers, is_moved, lemma_first_bind, translated, PATH_LIMIT};

verus! {

/// Which file takes the place of a host file.
pub enum FakeFile {
    /// The kernel version, made from the kernel release.
    Version,
    /// The memory map, without the root filesystem in its paths.
    Maps,
    /// The process status, with the fake identity.
    Status,
    /// The mount table, without the root filesystem in its paths.
    Mountinfo,
    /// The command line, without the root filesystem in its arguments.
    Cmdline,
    /// Contents that depend on nothing.
    Fixed(Vec<u8>),
}

/// Which file takes the place of a host file, as a mathematical value.
pub enum FakeKind {
    Version,
    Maps,
    Status,
    Mountinfo,
    Cmdline,
    Fixed(Seq<u8>),
}

impl View for FakeFile {
    type V = FakeKind;

    open spec fn view(&self) -> FakeKind {
        match self {
            FakeFile::Version => FakeKind::Version,
            FakeFile::Maps => FakeKind::Maps,
            FakeFile::Status => FakeKind::Status,
            FakeFile::Mountinfo => FakeKind::Mountinfo,
            FakeFile::Cmdline => FakeKind::Cmdline,
            FakeFile::Fixed(v) => FakeKind::Fixed(v@),
        }
    }
}

/// The view of a fake file that may be absent.
pub open spec fn fake_view(f: Option<FakeFile>) -> Option<FakeKind> {
    match f {
        Some(file) => Some(file@),
        None => None,
    }
}

/// The contents of `uid_map` and `gid_map` under the fake identity.
pub open spec fn id_map_text() -> Seq<u8> {
    lit("         0          0 4294967295\n")
}

/// The contents of `/proc/filesystems`.
pub open spec fn filesystems_text() -> Seq<u8> {
    lit(
        "nodev\tsysfs\nnodev\tproc\nnodev\tdevtmpfs\nnodev\tdevpts\nnodev\ttmpfs\nnodev\tsecurityfs\nnodev\tcgroup2\n\text4\n\tbtrfs\n\txfs\n\tvfat\n",
    )
}

/// The file that takes the place of the one at `path`, if there is one.
pub open spec fn fake_for(root_id: bool, path: Seq<u8>) -> Option<FakeKind> {
    if path == lit("/proc/version") || path == lit("/proc/sys/kernel/version") || path == lit(
        "/proc/sys/kernel/osrelease",
    ) {
        Some(FakeKind::Version)
    } else if path == lit("/proc/self/maps") {
        Some(FakeKind::Maps)
    } else if path == lit("/proc/self/status") {
        Some(FakeKind::Status)
    } else if path == lit("/proc/self/mountinfo") || path == lit("/proc/self/mounts") {
        Some(FakeKind::Mountinfo)
    } else if path == lit("/proc/self/cmdline") {
        Some(FakeKind::Cmdline)
    } else if path == lit("/proc/self/uid_map") || path == lit("/proc/self/gid_map") {
        if root_id {
            Some(FakeKind::Fixed(id_map_text()))
        } else {
            None
        }
    } else if path == lit("/proc/self/setgroups") {
        Some(FakeKind::Fixed(lit("allow\n")))
    } else if path == lit("/proc/filesystems") {
        Some(FakeKind::Fixed(filesystems_text()))
    } else if path == lit("/proc/self/attr/current") {
        Some(FakeKind::Fixed(lit("kernel=unconfined\n")))
    } else {
        None
    }
}

/// Where the first line of a text ends, its newline being part of it.
pub open spec fn line_end(raw: Seq<u8>) -> int {
    let nl = first_of(raw, 0, seq![0x0a]);
    if nl < raw.len() {
        nl + 1
    } else {
        raw.len() as int
    }
}

/// A text with every line replaced by what `f` makes of it.
pub open spec fn map_lines(raw: Seq<u8>, f: spec_fn(Seq<u8>) -> Seq<u8>) -> Seq<u8>
    decreases raw.len(),
    when raw.len() >= 0
    via map_lines_decreases
{
    if raw.len() == 0 {
        Seq::empty()
    } else {
        f(raw.take(line_end(raw))) + map_lines(raw.skip(line_end(raw)), f)
    }
}

#[via_fn]
proof fn map_lines_decreases(raw: Seq<u8>, f: spec_fn(Seq<u8>) -> Seq<u8>) {
    if raw.len() > 0 {
        lemma_line_end(raw);
    }
}

/// A line has at least one byte and does not reach beyond the text.
pub proof fn lemma_line_end(raw: Seq<u8>)
    requires
        raw.len() > 0,
    ensures
        0 < line_end(raw) <= raw.len(),
{
    lemma_first_of(raw, 0, seq![0x0a]);
}

/// A blank or a tab.
pub open spec fn is_blank(b: u8) -> bool {
    b == 0x20 || b == 0x09
}

/// The number of fields of a line that end in front of position `i`.
pub open spec fn fields_before(line: Seq<u8>, i: int) -> int
    decreases i,
{
    if i <= 0 {
        0
    } else {
        fields_before(line, i - 1) + (if is_blank(line[i - 1]) && i >= 2 && !is_blank(line[i - 2]) {
            1int
        } else {
            0
        })
    }
}

/// Whether the path name of a memory map line starts at `i`: behind five fields, with a slash.
pub open spec fn is_path_start(line: Seq<u8>, i: int) -> bool {
    line[i] == 0x2f && (i == 0 || is_blank(line[i - 1])) && fields_before(line, i) >= 5
}

/// The first position from `from` on at which a path name starts, or the length of the line.
pub open spec fn path_start(line: Seq<u8>, from: int) -> int
    decreases line.len() - from,
{
    if from >= line.len() {
        line.len() as int
    } else if is_path_start(line, from) {
        from
    } else {
        path_start(line, from + 1)
    }
}

/// The path that the program sees for a path on the host.
pub open spec fn guest_path(rootfs: Seq<u8>, path: Seq<u8>) -> Seq<u8> {
    if covers(rootfs, path) {
        if path.len() == rootfs.len() {
            lit("/")
        } else {
            path.skip(rootfs.len() as int)
        }
    } else {
        path
    }
}

/// The bytes behind which a path name in a table ends.
pub open spec fn path_stops() -> Seq<u8> {
    seq![0x20, 0x09, 0x0a]
}

/// A memory map line as the program sees it.
pub open spec fn maps_line(rootfs: Seq<u8>, line: Seq<u8>) -> Seq<u8> {
    let at = path_start(line, 0);
    if at < line.len() {
        let end = first_of(line, at, path_stops());
        line.take(at) + guest_path(rootfs, line.subrange(at, end)) + line.skip(end)
    } else {
        line
    }
}

/// The memory map as the program sees it.
pub open spec fn maps_text(rootfs: Seq<u8>, raw: Seq<u8>) -> Seq<u8> {
    if rootfs.len() == 0 {
        raw
    } else {
        map_lines(raw, |line: Seq<u8>| maps_line(rootfs, line))
    }
}

/// A status line under the fake identity.
pub open spec fn status_line(line: Seq<u8>) -> Seq<u8> {
    if lit("Uid:").is_prefix_of(line) {
        lit("Uid:\t0\t0\t0\t0\n")
    } else if lit("Gid:").is_prefix_of(line) {
        lit("Gid:\t0\t0\t0\t0\n")
    } else {
        line
    }
}

/// The process status as the program sees it.
pub open spec fn status_text(root_id: bool, raw: Seq<u8>) -> Seq<u8> {
    if root_id {
        map_lines(raw, |line: Seq<u8>| status_line(line))
    } else {
        raw
    }
}

/// One argument of the command line as the program sees it.
pub open spec fn guest_arg(rootfs: Seq<u8>, arg: Seq<u8>) -> Seq<u8> {
    if arg.len() > 0 && arg[0] == 0x2f {
        guest_path(rootfs, arg)
    } else {
        arg
    }
}

/// The arguments of a command line, each closed by a zero byte, as the program sees them.
pub open spec fn cmdline_args(rootfs: Seq<u8>, raw: Seq<u8>) -> Seq<u8>
    decreases raw.len(),
    when raw.len() >= 0
    via cmdline_args_decreases
{
    if raw.len() == 0 {
        Seq::empty()
    } else {
        let end = first_of(raw, 0, seq![0]);
        guest_arg(rootfs, raw.take(end)).push(0) + cmdline_args(
            rootfs,
            if end < raw.len() {
                raw.skip(end + 1)
            } else {
                Seq::empty()
            },
        )
    }
}

#[via_fn]
proof fn cmdline_args_decreases(rootfs: Seq<u8>, raw: Seq<u8>) {
    if raw.len() > 0 {
        lemma_first_of(raw, 0, seq![0]);
    }
}

/// The command line as the program sees it.
pub open spec fn cmdline_text(rootfs: Seq<u8>, raw: Seq<u8>) -> Seq<u8> {
    if rootfs.len() == 0 {
        raw
    } else {
        cmdline_args(rootfs, raw)
    }
}

/// Whether the root filesystem stands at `i` as a field of its own or as the start of a path.
pub open spec fn is_mount_path(rootfs: Seq<u8>, raw: Seq<u8>, i: int) -> bool {
    let after = i + rootfs.len();
    &&& i == 0 || path_stops().contains(raw[i - 1])
    &&& rootfs.is_prefix_of(raw.skip(i))
    &&& after >= raw.len() || raw[after] == 0x2f || path_stops().contains(raw[after])
}

/// The mount table from position `i` on as the program sees it.
pub open spec fn mounts_from(rootfs: Seq<u8>, raw: Seq<u8>, i: int) -> Seq<u8>
    decreases raw.len() - i,
    when rootfs.len() > 0 && 0 <= i
{
    if i >= raw.len() {
        Seq::empty()
    } else if is_mount_path(rootfs, raw, i) {
        let after = i + rootfs.len();
        (if after < raw.len() && raw[after] == 0x2f {
            Seq::empty()
        } else {
            lit("/")
        }) + mounts_from(rootfs, raw, after)
    } else {
        seq![raw[i]] + mounts_from(rootfs, raw, i + 1)
    }
}

/// The mount table as the program sees it.
pub open spec fn mounts_text(rootfs: Seq<u8>, raw: Seq<u8>) -> Seq<u8> {
    if rootfs.len() == 0 {
        raw
    } else {
        mounts_from(rootfs, raw, 0)
    }
}

/// The kernel version for a kernel release: what is no UTF-8 reads as `0.0.0`, and what stands behind
/// the first blank or tab is dropped.
pub open spec fn version_text(release: Seq<u8>) -> Seq<u8> {
    let text = if vstd::utf8::valid_utf8(release) {
        release
    } else {
        lit("0.0.0")
    };
    lit("Linux version ") + text.take(first_of(text, 0, seq![0x20, 0x09])) + lit(
        " (lroot) #1 SMP Tue Jan 1 00:00:00 UTC 2019\n",
    )
}

/// Whether the bytes are UTF-8, as `std::str::from_utf8` decides by succeeding on exactly those.
#[verifier::external_body]
pub(crate) fn is_utf8(s: &[u8]) -> (r: bool)
    ensures
        r == vstd::utf8::valid_utf8(s@),
{
    std::str::from_utf8(s).is_ok()
}

fn owned(s: &str) -> (r: Vec<u8>)
    ensures
        r@ == lit(s),
{
    vstd::slice::slice_to_vec(s.as_bytes())
}

/// The part of a buffer in front of its first zero byte, or all of it.
pub fn read_cstring(buf: &[u8]) -> (r: Vec<u8>)
    ensures
        r@ == crate::bytes::before(buf@, 0),
{
    let stop: [u8; 1] = [0];
    let end: usize = find_first(buf, 0, stop.as_slice());
    proof {
        assert(stop@ =~= seq![0u8]);
        assert(buf@.subrange(0, end as int) =~= buf@.take(end as int));
    }
    part(buf, 0, end)
}

/// The kernel version for the release that was asked for, or else for the host's: `host` is the
/// release field that the kernel filled in, closed by a zero byte.
pub fn fake_proc_version(asked: Option<&[u8]>, host: &[u8]) -> (r: Vec<u8>)
    ensures
        r@ == version_text(
            match asked {
                Some(k) => k@,
                None => crate::bytes::before(host@, 0),
            },
        ),
{
    let mut release = match asked {
        Some(k) => vstd::slice::slice_to_vec(k),
        None => read_cstring(host),
    };
    if !is_utf8(release.as_slice()) {
        release = owned("0.0.0");
    }
    let stops: [u8; 2] = [0x20, 0x09];
    let end: usize = find_first(release.as_slice(), 0, stops.as_slice());
    proof {
        assert(stops@ =~= seq![0x20u8, 0x09u8]);
        assert(release@.subrange(0, end as int) =~= release@.take(end as int));
    }
    let mut out = owned("Linux version ");
    let word = part(release.as_slice(), 0, end);
    append(&mut out, word.as_slice());
    append(&mut out, " (lroot) #1 SMP Tue Jan 1 00:00:00 UTC 2019\n".as_bytes());
    out
}

fn blank(b: u8) -> (r: bool)
    ensures
        r == is_blank(b),
{
    b == 0x20 || b == 0x09
}

/// The position of the path name in a memory map line, or the length of the line.
fn find_path(line: &[u8]) -> (r: usize)
    ensures
        r == path_start(line@, 0),
        r <= line@.len(),
{
    let mut fields: usize = 0;
    let mut in_blank: bool = true;
    let mut i: usize = 0;
    while i < line.len()
        invariant
            i <= line@.len(),
            fields <= i,
            fields == fields_before(line@, i as int),
            in_blank == (i == 0 || is_blank(line@[i - 1])),
            path_start(line@, 0) == path_start(line@, i as int),
        decreases line.len() - i,
    {
        let b: u8 = line[i];
        proof {
            lemma_fields_step(line@, i as int);
        }
        if in_blank && fields >= 5 && b == 0x2f {
            return i;
        }
        if blank(b) {
            if !in_blank {
                fields += 1;
            }
            in_blank = true;
        } else {
            in_blank = false;
        }
        i += 1;
    }
    i
}

proof fn lemma_fields_step(line: Seq<u8>, i: int)
    requires
        0 <= i < line.len(),
    ensures
        fields_before(line, i + 1) == fields_before(line, i) + (if is_blank(line[i]) && i >= 1
            && !is_blank(line[i - 1]) {
            1int
        } else {
            0
        }),
{
}

/// The path that the program sees for a path on the host.
pub fn to_guest(rootfs: &[u8], path: &[u8]) -> (r: Vec<u8>)
    ensures
        r@ == guest_path(rootfs@, path@),
{
    let n: usize = rootfs.len();
    if is_covered(rootfs, path) {
        if path.len() == n {
            owned("/")
        } else {
            let rest = part(path, n, path.len());
            proof {
                assert(rest@ =~= path@.skip(n as int));
            }
            rest
        }
    } else {
        vstd::slice::slice_to_vec(path)
    }
}

/// A memory map line as the program sees it.
pub fn fake_maps_line(rootfs: &[u8], line: &[u8]) -> (r: Vec<u8>)
    ensures
        r@ == maps_line(rootfs@, line@),
{
    let at: usize = find_path(line);
    if at == line.len() {
        return vstd::slice::slice_to_vec(line);
    }
    let stops: [u8; 3] = [0x20, 0x09, 0x0a];
    let end: usize = find_first(line, at, stops.as_slice());
    let mut out = part(line, 0, at);
    let shown = to_guest(rootfs, vstd::slice::slice_subrange(line, at, end));
    append(&mut out, shown.as_slice());
    append(&mut out, vstd::slice::slice_subrange(line, end, line.len()));
    proof {
        assert(stops@ =~= path_stops());
        assert(line@.subrange(0, at as int) =~= line@.take(at as int));
        assert(line@.subrange(end as int, line@.len() as int) =~= line@.skip(end as int));
    }
    out
}

/// The end of the line that starts at `at`.
fn next_line(raw: &[u8], at: usize) -> (r: usize)
    requires
        at < raw@.len(),
    ensures
        at < r <= raw@.len(),
        r - at == line_end(raw@.skip(at as int)),
{
    let stop: [u8; 1] = [0x0a];
    let nl: usize = find_first(raw, at, stop.as_slice());
    proof {
        assert(stop@ =~= seq![0x0au8]);
        lemma_first_of(raw@, at as int, seq![0x0a]);
        lemma_first_of_is(raw@.skip(at as int), 0, seq![0x0a], nl - at);
    }
    if nl < raw.len() {
        nl + 1
    } else {
        raw.len()
    }
}

/// The memory map as the program sees it.
pub fn fake_proc_maps(rootfs: &[u8], raw: &[u8]) -> (r: Vec<u8>)
    ensures
        r@ == maps_text(rootfs@, raw@),
{
    if rootfs.len() == 0 {
        return vstd::slice::slice_to_vec(raw);
    }
    let ghost f = |line: Seq<u8>| maps_line(rootfs@, line);
    let mut out: Vec<u8> = Vec::new();
    let mut at: usize = 0;
    proof {
        assert(raw@.skip(0) =~= raw@);
        assert(out@ + map_lines(raw@, f) =~= map_lines(raw@, f));
    }
    while at < raw.len()
        invariant
            at <= raw@.len(),
            f == (|line: Seq<u8>| maps_line(rootfs@, line)),
            map_lines(raw@, f) == out@ + map_lines(raw@.skip(at as int), f),
        decreases raw.len() - at,
    {
        let end: usize = next_line(raw, at);
        let line = vstd::slice::slice_subrange(raw, at, end);
        let shown = fake_maps_line(rootfs, line);
        let ghost done = out@;
        append(&mut out, shown.as_slice());
        proof {
            let rest = raw@.skip(at as int);
            assert(rest.take(end - at) =~= line@);
            assert(rest.skip(end - at) =~= raw@.skip(end as int));
            assert(map_lines(rest, f) == f(line@) + map_lines(raw@.skip(end as int), f));
            assert(done + (f(line@) + map_lines(raw@.skip(end as int), f)) =~= out@ + map_lines(
                raw@.skip(end as int),
                f,
            ));
        }
        at = end;
    }
    proof {
        assert(out@ + map_lines(raw@.skip(at as int), f) =~= out@);
    }
    out
}

/// A status line under the fake identity.
pub fn fake_status_line(line: &[u8]) -> (r: Vec<u8>)
    ensures
        r@ == status_line(line@),
{
    if starts_with(line, "Uid:".as_bytes()) {
        owned("Uid:\t0\t0\t0\t0\n")
    } else if starts_with(line, "Gid:".as_bytes()) {
        owned("Gid:\t0\t0\t0\t0\n")
    } else {
        vstd::slice::slice_to_vec(line)
    }
}

/// The process status as the program sees it.
pub fn fake_proc_status(root_id: bool, raw: &[u8]) -> (r: Vec<u8>)
    ensures
        r@ == status_text(root_id, raw@),
{
    if !root_id {
        return vstd::slice::slice_to_vec(raw);
    }
    let ghost f = |line: Seq<u8>| status_line(line);
    let mut out: Vec<u8> = Vec::new();
    let mut at: usize = 0;
    proof {
        assert(raw@.skip(0) =~= raw@);
        assert(out@ + map_lines(raw@, f) =~= map_lines(raw@, f));
    }
    while at < raw.len()
        invariant
            at <= raw@.len(),
            f == (|line: Seq<u8>| status_line(line)),
            map_lines(raw@, f) == out@ + map_lines(raw@.skip(at as int), f),
        decreases raw.len() - at,
    {
        let end: usize = next_line(raw, at);
        let line = vstd::slice::slice_subrange(raw, at, end);
        let shown = fake_status_line(line);
        let ghost done = out@;
        append(&mut out, shown.as_slice());
        proof {
            let rest = raw@.skip(at as int);
            assert(rest.take(end - at) =~= line@);
            assert(rest.skip(end - at) =~= raw@.skip(end as int));
            assert(map_lines(rest, f) == f(line@) + map_lines(raw@.skip(end as int), f));
            assert(done + (f(line@) + map_lines(raw@.skip(end as int), f)) =~= out@ + map_lines(
                raw@.skip(end as int),
                f,
            ));
        }
        at = end;
    }
    proof {
        assert(out@ + map_lines(raw@.skip(at as int), f) =~= out@);
    }
    out
}

/// The command line as the program sees it.
pub fn fake_proc_cmdline(rootfs: &[u8], raw: &[u8]) -> (r: Vec<u8>)
    ensures
        r@ == cmdline_text(rootfs@, raw@),
{
    if rootfs.len() == 0 {
        return vstd::slice::slice_to_vec(raw);
    }
    let mut out: Vec<u8> = Vec::new();
    let mut at: usize = 0;
    proof {
        assert(raw@.skip(0) =~= raw@);
        assert(out@ + cmdline_args(rootfs@, raw@) =~= cmdline_args(rootfs@, raw@));
    }
    while at < raw.len()
        invariant
            at <= raw@.len(),
            cmdline_args(rootfs@, raw@) == out@ + cmdline_args(rootfs@, raw@.skip(at as int)),
        decreases raw.len() - at,
    {
        let stop: [u8; 1] = [0];
        let end: usize = find_first(raw, at, stop.as_slice());
        let arg = vstd::slice::slice_subrange(raw, at, end);
        let shown = if arg.len() > 0 && arg[0] == 0x2f {
            to_guest(rootfs, arg)
        } else {
            vstd::slice::slice_to_vec(arg)
        };
        let ghost done = out@;
        append(&mut out, shown.as_slice());
        out.push(0);
        let next: usize = if end < raw.len() {
            end + 1
        } else {
            end
        };
        proof {
            let rest = raw@.skip(at as int);
            let tail = cmdline_args(rootfs@, raw@.skip(next as int));
            assert(stop@ =~= seq![0u8]);
            lemma_first_of(raw@, at as int, seq![0]);
            lemma_first_of_is(rest, 0, seq![0], end - at);
            assert(rest.take(end - at) =~= arg@);
            if end < raw@.len() {
                assert(rest.skip(end - at + 1) =~= raw@.skip(next as int));
            } else {
                assert(raw@.skip(next as int) =~= Seq::empty());
            }
            assert(cmdline_args(rootfs@, rest) == guest_arg(rootfs@, arg@).push(0) + tail);
            assert(done + (guest_arg(rootfs@, arg@).push(0) + tail) =~= out@ + tail);
        }
        at = next;
    }
    proof {
        assert(raw@.skip(at as int) =~= Seq::empty());
        assert(out@ + cmdline_args(rootfs@, raw@.skip(at as int)) =~= out@);
    }
    out
}

/// The mount table as the program sees it.
pub fn fake_proc_mountinfo(rootfs: &[u8], raw: &[u8]) -> (r: Vec<u8>)
    ensures
        r@ == mounts_text(rootfs@, raw@),
{
    if rootfs.len() == 0 {
        return vstd::slice::slice_to_vec(raw);
    }
    let stops: [u8; 3] = [0x20, 0x09, 0x0a];
    let mut out: Vec<u8> = Vec::new();
    let mut i: usize = 0;
    proof {
        assert(stops@ =~= path_stops());
        assert(out@ + mounts_from(rootfs@, raw@, 0) =~= mounts_from(rootfs@, raw@, 0));
    }
    while i < raw.len()
        invariant
            i <= raw@.len(),
            rootfs@.len() > 0,
            stops@ == path_stops(),
            mounts_from(rootfs@, raw@, 0) == out@ + mounts_from(rootfs@, raw@, i as int),
        decreases raw.len() - i,
    {
        let ghost done = out@;
        let at_start: bool = i == 0 || crate::bytes::is_one_of(stops.as_slice(), raw[i - 1]);
        let here = vstd::slice::slice_subrange(raw, i, raw.len());
        proof {
            assert(here@ =~= raw@.skip(i as int));
        }
        if at_start && starts_with(here, rootfs) {
            let after: usize = i + rootfs.len();
            let at_end: bool = after == raw.len() || crate::bytes::is_one_of(
                stops.as_slice(),
                raw[after],
            );
            if at_end || raw[after] == 0x2f {
                if at_end {
                    append(&mut out, "/".as_bytes());
                }
                proof {
                    assert(is_mount_path(rootfs@, raw@, i as int));
                    assert(!path_stops().contains(0x2f)) by {
                        assert(path_stops()[0] == 0x20);
                    }
                    let tail = mounts_from(rootfs@, raw@, after as int);
                    assert(mounts_from(rootfs@, raw@, 0) =~= out@ + tail);
                }
                i = after;
                continue;
            }
        }
        out.push(raw[i]);
        proof {
            assert(!is_mount_path(rootfs@, raw@, i as int));
            let tail = mounts_from(rootfs@, raw@, i + 1);
            assert(done + (seq![raw@[i as int]] + tail) =~= out@ + tail);
        }
        i += 1;
    }
    proof {
        assert(out@ + mounts_from(rootfs@, raw@, i as int) =~= out@);
    }
    out
}

/// The contents of `uid_map` and `gid_map`; the host's own are used without the fake identity.
pub fn fake_proc_id_map(root_id: bool) -> (r: Option<FakeFile>)
    ensures
        fake_view(r) == (if root_id {
            Some(FakeKind::Fixed(id_map_text()))
        } else {
            None
        }),
{
    if root_id {
        Some(FakeFile::Fixed(owned("         0          0 4294967295\n")))
    } else {
        None
    }
}

/// The file that takes the place of the one at `path`, if there is one.
pub fn try_proc_fake_open(root_id: bool, path: &[u8]) -> (r: Option<FakeFile>)
    ensures
        fake_view(r) == fake_for(root_id, path@),
{
    if same(path, "/proc/version".as_bytes()) {
        Some(FakeFile::Version)
    } else if same(path, "/proc/sys/kernel/version".as_bytes()) {
        Some(FakeFile::Version)
    } else if same(path, "/proc/sys/kernel/osrelease".as_bytes()) {
        Some(FakeFile::Version)
    } else if same(path, "/proc/self/maps".as_bytes()) {
        Some(FakeFile::Maps)
    } else if same(path, "/proc/self/status".as_bytes()) {
        Some(FakeFile::Status)
    } else if same(path, "/proc/self/mountinfo".as_bytes()) {
        Some(FakeFile::Mountinfo)
    } else if same(path, "/proc/self/mounts".as_bytes()) {
        Some(FakeFile::Mountinfo)
    } else if same(path, "/proc/self/cmdline".as_bytes()) {
        Some(FakeFile::Cmdline)
    } else if same(path, "/proc/self/uid_map".as_bytes()) {
        fake_proc_id_map(root_id)
    } else if same(path, "/proc/self/gid_map".as_bytes()) {
        fake_proc_id_map(root_id)
    } else if same(path, "/proc/self/setgroups".as_bytes()) {
        Some(FakeFile::Fixed(owned("allow\n")))
    } else if same(path, "/proc/filesystems".as_bytes()) {
        Some(
            FakeFile::Fixed(
                owned(
                    "nodev\tsysfs\nnodev\tproc\nnodev\tdevtmpfs\nnodev\tdevpts\nnodev\ttmpfs\nnodev\tsecurityfs\nnodev\tcgroup2\n\text4\n\tbtrfs\n\txfs\n\tvfat\n",
                ),
            ),
        )
    } else if same(path, "/proc/self/attr/current".as_bytes()) {
        Some(FakeFile::Fixed(owned("kernel=unconfined\n")))
    } else {
        None
    }
}

// ---- What holds of the files as a whole ----

proof fn lemma_ascii(s: &str)
    requires
        s.is_ascii(),
    ensures
        lit(s) =~= Seq::new(s@.len(), |i: int| s@[i] as u8),
{
    vstd::string::is_ascii_spec_bytes(s);
}

/// Only absolute paths have a made-up file in their place.
pub proof fn law_fakes_are_absolute(root_id: bool, path: Seq<u8>)
    requires
        fake_for(root_id, path) is Some,
    ensures
        path.len() > 0,
        path[0] == 0x2f,
{
    reveal_strlit("/proc/version");
    reveal_strlit("/proc/sys/kernel/version");
    reveal_strlit("/proc/sys/kernel/osrelease");
    reveal_strlit("/proc/self/maps");
    reveal_strlit("/proc/self/status");
    reveal_strlit("/proc/self/mountinfo");
    reveal_strlit("/proc/self/mounts");
    reveal_strlit("/proc/self/cmdline");
    reveal_strlit("/proc/self/uid_map");
    reveal_strlit("/proc/self/gid_map");
    reveal_strlit("/proc/self/setgroups");
    reveal_strlit("/proc/filesystems");
    reveal_strlit("/proc/self/attr/current");
    lemma_ascii("/proc/version");
    lemma_ascii("/proc/sys/kernel/version");
    lemma_ascii("/proc/sys/kernel/osrelease");
    lemma_ascii("/proc/self/maps");
    lemma_ascii("/proc/self/status");
    lemma_ascii("/proc/self/mountinfo");
    lemma_ascii("/proc/self/mounts");
    lemma_ascii("/proc/self/cmdline");
    lemma_ascii("/proc/self/uid_map");
    lemma_ascii("/proc/self/gid_map");
    lemma_ascii("/proc/self/setgroups");
    lemma_ascii("/proc/filesystems");
    lemma_ascii("/proc/self/attr/current");
}

/// Without a root filesystem the paths in the files stay, and without the fake identity the status does.
pub proof fn law_nothing_to_hide(raw: Seq<u8>)
    ensures
        maps_text(Seq::empty(), raw) == raw,
        cmdline_text(Seq::empty(), raw) == raw,
        mounts_text(Seq::empty(), raw) == raw,
        status_text(false, raw) == raw,
{
}

/// The program sees the path that it named where the host sees the place that the path was moved to,
/// unless a bind mount covers it; as an argument of the command line it does where the root filesystem
/// is named by an absolute path.
pub proof fn law_guest_path_undoes_translate(s: Settings, path: Seq<u8>)
    requires
        is_moved(s, path),
        forall|i: int| 0 <= i < s.binds.len() ==> !covers((#[trigger] s.binds[i]).1, path),
        s.rootfs.len() + path.len() < PATH_LIMIT,
    ensures
        guest_path(s.rootfs, translated(s, path)) == path,
        s.rootfs[0] == 0x2f ==> guest_arg(s.rootfs, translated(s, path)) == path,
{
    lemma_first_bind(s.binds, 0, path);
    let t = s.rootfs + path;
    assert(t.subrange(0, s.rootfs.len() as int) =~= s.rootfs);
    assert(t.skip(s.rootfs.len() as int) =~= path);
    assert(t[s.rootfs.len() as int] == path[0]);
}

/// Whether a text holds nothing that ends a path name in a table.
pub open spec fn is_one_name(s: Seq<u8>) -> bool {
    forall|i: int| 0 <= i < s.len() ==> !path_stops().contains(#[trigger] s[i])
}

/// In the memory map a file of the root filesystem goes by the path that the program knows it by, and
/// the rest of its line stays.
pub proof fn law_maps_show_guest_paths(
    rootfs: Seq<u8>,
    head: Seq<u8>,
    path: Seq<u8>,
    rest: Seq<u8>,
)
    requires
        is_one_name(rootfs),
        is_one_name(path),
        path.len() > 0,
        path[0] == 0x2f,
        rest.len() > 0 ==> path_stops().contains(rest[0]),
        path_start(head + (rootfs + path) + rest, 0) == head.len(),
    ensures
        maps_line(rootfs, head + (rootfs + path) + rest) == head + path + rest,
{
    let name = rootfs + path;
    let line = head + name + rest;
    let at = head.len() as int;
    let end = at + name.len();
    assert forall|i: int| at <= i < end implies !path_stops().contains(#[trigger] line[i]) by {
        if i - at < rootfs.len() {
            assert(line[i] == rootfs[i - at]);
        } else {
            assert(line[i] == path[i - at - rootfs.len()]);
        }
    }
    if rest.len() > 0 {
        assert(line[end] == rest[0]);
    }
    lemma_first_of_is(line, at, path_stops(), end);
    assert(line.take(at) =~= head);
    assert(line.subrange(at, end) =~= name);
    assert(line.skip(end) =~= rest);
    assert(name.subrange(0, rootfs.len() as int) =~= rootfs);
    assert(name[rootfs.len() as int] == path[0]);
    assert(name.skip(rootfs.len() as int) =~= path);
}

/// Arguments in a row, each closed by a zero byte.
pub open spec fn packed(args: Seq<Seq<u8>>) -> Seq<u8>
    decreases args.len(),
{
    if args.len() == 0 {
        Seq::empty()
    } else {
        args[0].push(0) + packed(args.skip(1))
    }
}

/// The command line is rewritten argument by argument: none is lost, joined or parted.
pub proof fn law_cmdline_by_argument(rootfs: Seq<u8>, args: Seq<Seq<u8>>)
    requires
        rootfs.len() > 0,
        forall|i: int| 0 <= i < args.len() ==> !(#[trigger] args[i]).contains(0),
    ensures
        cmdline_text(rootfs, packed(args)) == packed(
            args.map_values(|arg: Seq<u8>| guest_arg(rootfs, arg)),
        ),
    decreases args.len(),
{
    let seen = args.map_values(|arg: Seq<u8>| guest_arg(rootfs, arg));
    if args.len() > 0 {
        let rest = args.skip(1);
        let raw = packed(args);
        let n = args[0].len() as int;
        assert(raw[n] == 0);
        assert forall|i: int| 0 <= i < n implies !seq![0u8].contains(#[trigger] raw[i]) by {
            assert(raw[i] == args[0][i]);
            if seq![0u8].contains(raw[i]) {
                assert(args[0].contains(0));
            }
        }
        assert(seq![0u8].contains(raw[n])) by {
            assert(seq![0u8][0] == raw[n]);
        }
        lemma_first_of_is(raw, 0, seq![0], n);
        assert(raw.take(n) =~= args[0]);
        assert(raw.skip(n + 1) =~= packed(rest));
        assert forall|i: int| 0 <= i < rest.len() implies !(#[trigger] rest[i]).contains(0) by {
            assert(rest[i] == args[i + 1]);
        }
        law_cmdline_by_argument(rootfs, rest);
        assert(seen.skip(1) =~= rest.map_values(|arg: Seq<u8>| guest_arg(rootfs, arg)));
    }
}

/// Whether a text is one line: nothing stands behind a newline in it.
spec fn is_line(s: Seq<u8>) -> bool {
    s.len() > 0 && forall|i: int| 0 <= i < s.len() - 1 ==> #[trigger] s[i] != 0x0a
}

proof fn lemma_status_line(line: Seq<u8>)
    requires
        is_line(line),
    ensures
        is_line(status_line(line)),
        status_line(line) == line || status_line(line).last() == 0x0a,
        status_line(status_line(line)) == status_line(line),
{
    reveal_strlit("Uid:");
    reveal_strlit("Gid:");
    reveal_strlit("Uid:\t0\t0\t0\t0\n");
    reveal_strlit("Gid:\t0\t0\t0\t0\n");
    lemma_ascii("Uid:");
    lemma_ascii("Gid:");
    lemma_ascii("Uid:\t0\t0\t0\t0\n");
    lemma_ascii("Gid:\t0\t0\t0\t0\n");
    let uid = lit("Uid:\t0\t0\t0\t0\n");
    let gid = lit("Gid:\t0\t0\t0\t0\n");
    assert(uid.subrange(0, 4) =~= lit("Uid:"));
    assert(gid.subrange(0, 4) =~= lit("Gid:"));
    assert(gid.subrange(0, 4)[0] != lit("Uid:")[0]);
}

/// Rewriting the status a second time changes nothing more.
pub proof fn law_status_twice(raw: Seq<u8>)
    ensures
        status_text(true, status_text(true, raw)) == status_text(true, raw),
    decreases raw.len(),
{
    let f = |line: Seq<u8>| status_line(line);
    if raw.len() > 0 {
        lemma_line_end(raw);
        let end = line_end(raw);
        let line = raw.take(end);
        let rest = raw.skip(end);
        lemma_first_of(raw, 0, seq![0x0a]);
        let nl = first_of(raw, 0, seq![0x0a]);
        assert forall|i: int| 0 <= i < line.len() - 1 implies #[trigger] line[i] != 0x0a by {
            if raw[i] == 0x0a {
                assert(seq![0x0au8][0] == raw[i]);
                assert(seq![0x0au8].contains(raw[i]));
            }
        }
        assert(line.last() != 0x0a ==> rest.len() == 0) by {
            if nl < raw.len() {
                assert(seq![0x0au8].contains(raw[nl]));
                assert(line.last() == raw[nl]);
            }
        }
        lemma_status_line(line);
        let new = status_line(line);
        let tail = map_lines(rest, f);
        law_status_twice(rest);
        let whole = new + tail;
        assert(map_lines(raw, f) == whole);
        if new.last() == 0x0a {
            let at = new.len() - 1;
            assert(whole[at] == new[at]);
            assert(seq![0x0au8].contains(whole[at])) by {
                assert(seq![0x0au8][0] == whole[at]);
            }
            assert forall|i: int| 0 <= i < at implies !seq![0x0au8].contains(#[trigger] whole[i]) by {
                assert(whole[i] == new[i]);
            }
            lemma_first_of_is(whole, 0, seq![0x0a], at);
            assert(line_end(whole) == new.len());
        } else {
            assert(tail =~= Seq::empty());
            assert(whole =~= new);
            assert forall|i: int| 0 <= i < new.len() implies !seq![0x0au8].contains(
                #[trigger] new[i],
            ) by {}
            lemma_first_of_is(new, 0, seq![0x0a], new.len() as int);
            assert(line_end(whole) == new.len());
        }
        assert(whole.take(new.len() as int) =~= new);
        assert(whole.skip(new.len() as int) =~= tail);
    }
}

/// A mount table that does not name the root filesystem stays as it is.
pub proof fn law_foreign_mounts_stay(rootfs: Seq<u8>, raw: Seq<u8>)
    requires
        forall|i: int| 0 <= i < raw.len() ==> !#[trigger] is_mount_path(rootfs, raw, i),
    ensures
        mounts_text(rootfs, raw) == raw,
{
    if rootfs.len() > 0 {
        lemma_mounts_copied(rootfs, raw, 0, raw.len() as int);
        assert(raw.subrange(0, raw.len() as int) + Seq::<u8>::empty() =~= raw);
    }
}

/// Where the mount table names the root filesystem, the program sees the path that it knows instead, and
/// the rest of the table stays.
pub proof fn law_mounts_show_guest_paths(rootfs: Seq<u8>, raw: Seq<u8>, at: int)
    requires
        rootfs.len() > 0,
        0 <= at <= raw.len() - rootfs.len(),
        is_mount_path(rootfs, raw, at),
        forall|i: int| 0 <= i < raw.len() && i != at ==> !#[trigger] is_mount_path(rootfs, raw, i),
    ensures
        mounts_text(rootfs, raw) == raw.take(at) + (if at + rootfs.len() < raw.len() && raw[at
            + rootfs.len()] == 0x2f {
            Seq::empty()
        } else {
            lit("/")
        }) + raw.skip(at + rootfs.len()),
{
    let after = at + rootfs.len();
    lemma_mounts_copied(rootfs, raw, 0, at);
    lemma_mounts_copied(rootfs, raw, after, raw.len() as int);
    assert(raw.subrange(0, at) =~= raw.take(at));
    assert(raw.subrange(after, raw.len() as int) =~= raw.skip(after));
    assert(mounts_from(rootfs, raw, after) =~= raw.skip(after));
    assert(mounts_text(rootfs, raw) =~= raw.take(at) + (if after < raw.len() && raw[after] == 0x2f {
        Seq::empty()
    } else {
        lit("/")
    }) + raw.skip(after));
}

/// A part of the mount table that does not name the root filesystem is copied.
proof fn lemma_mounts_copied(rootfs: Seq<u8>, raw: Seq<u8>, from: int, to: int)
    requires
        rootfs.len() > 0,
        0 <= from <= to <= raw.len(),
        forall|i: int| from <= i < to ==> !#[trigger] is_mount_path(rootfs, raw, i),
    ensures
        mounts_from(rootfs, raw, from) == raw.subrange(from, to) + mounts_from(rootfs, raw, to),
    decreases to - from,
{
    if from < to {
        lemma_mounts_copied(rootfs, raw, from + 1, to);
        assert(!is_mount_path(rootfs, raw, from));
        assert(seq![raw[from]] + raw.subrange(from + 1, to) =~= raw.subrange(from, to));
    }
    assert(mounts_from(rootfs, raw, from) =~= raw.subrange(from, to) + mounts_from(rootfs, raw, to));
}

/// Lines are replaced one by one: where one text ends with its line, the other starts with one of its own.
proof fn lemma_map_lines(x: Seq<u8>, y: Seq<u8>, f: spec_fn(Seq<u8>) -> Seq<u8>)
    requires
        x.len() == 0 || x.last() == 0x0a,
    ensures
        map_lines(x + y, f) == map_lines(x, f) + map_lines(y, f),
    decreases x.len(),
{
    if x.len() == 0 {
        assert(x + y =~= y);
        assert(map_lines(x, f) + map_lines(y, f) =~= map_lines(y, f));
    } else {
        let nl = seq![0x0au8];
        assert(nl[0] == 0x0a);
        lemma_first_of(x, 0, nl);
        let at = first_of(x, 0, nl);
        if at == x.len() {
            assert(!nl.contains(x[x.len() - 1]));
        }
        let whole = x + y;
        assert forall|i: int| 0 <= i < at implies !nl.contains(#[trigger] whole[i]) by {
            assert(whole[i] == x[i]);
        }
        assert(whole[at] == x[at]);
        lemma_first_of_is(whole, 0, nl, at);
        assert(whole.take(at + 1) =~= x.take(at + 1));
        assert(whole.skip(at + 1) =~= x.skip(at + 1) + y);
        if at + 1 < x.len() {
            assert(x.skip(at + 1).last() == x.last());
        }
        lemma_map_lines(x.skip(at + 1), y, f);
        assert(map_lines(whole, f) =~= map_lines(x, f) + map_lines(y, f));
    }
}

/// A text of one line is replaced as a whole.
proof fn lemma_map_line(line: Seq<u8>, f: spec_fn(Seq<u8>) -> Seq<u8>)
    requires
        line.len() > 0,
        forall|i: int| 0 <= i < line.len() - 1 ==> #[trigger] line[i] != 0x0a,
    ensures
        map_lines(line, f) == f(line),
{
    let nl = seq![0x0au8];
    assert(nl[0] == 0x0a);
    let n = line.len() as int;
    assert forall|i: int| 0 <= i < n - 1 implies !nl.contains(#[trigger] line[i]) by {}
    if line[n - 1] == 0x0a {
        lemma_first_of_is(line, 0, nl, n - 1);
    } else {
        lemma_first_of_is(line, 0, nl, n);
    }
    assert(line.take(n) =~= line);
    assert(line.skip(n) =~= Seq::empty());
    assert(map_lines(line.skip(n), f) =~= Seq::empty());
    assert(f(line) + Seq::<u8>::empty() =~= f(line));
}

/// With a root filesystem every line of the memory map is rewritten by itself: the map of two texts, the
/// first of which ends with its line, is the map of the first and then that of the second, the map of one
/// line is that line rewritten, and that of nothing is nothing.
pub proof fn law_maps_by_line(rootfs: Seq<u8>, x: Seq<u8>, y: Seq<u8>)
    requires
        rootfs.len() > 0,
    ensures
        x.len() > 0 && x.last() == 0x0a ==> maps_text(rootfs, x + y) == maps_text(rootfs, x)
            + maps_text(rootfs, y),
        x.len() > 0 && (forall|i: int| 0 <= i < x.len() - 1 ==> #[trigger] x[i] != 0x0a)
            ==> maps_text(rootfs, x) == maps_line(rootfs, x),
        maps_text(rootfs, Seq::empty()) == Seq::<u8>::empty(),
{
    let f = |line: Seq<u8>| maps_line(rootfs, line);
    if x.len() > 0 && x.last() == 0x0a {
        lemma_map_lines(x, y, f);
    }
    if x.len() > 0 && (forall|i: int| 0 <= i < x.len() - 1 ==> #[trigger] x[i] != 0x0a) {
        lemma_map_line(x, f);
    }
}

/// Under the fake identity every line of the status is rewritten by itself: the status of two texts, the
/// first of which ends with its line, is the status of the first and then that of the second, the status of
/// one line is that line rewritten, and that of nothing is nothing.
pub proof fn law_status_by_line(x: Seq<u8>, y: Seq<u8>)
    ensures
        x.len() > 0 && x.last() == 0x0a ==> status_text(true, x + y) == status_text(true, x)
            + status_text(true, y),
        x.len() > 0 && (forall|i: int| 0 <= i < x.len() - 1 ==> #[trigger] x[i] != 0x0a)
            ==> status_text(true, x) == status_line(x),
        status_text(true, Seq::empty()) == Seq::<u8>::empty(),
{
    let f = |line: Seq<u8>| status_line(line);
    if x.len() > 0 && x.last() == 0x0a {
        lemma_map_lines(x, y, f);
    }
    if x.len() > 0 && (forall|i: int| 0 <= i < x.len() - 1 ==> #[trigger] x[i] != 0x0a) {
        lemma_map_line(x, f);
    }
}

/// A status line that begins with `Uid:` or `Gid:` shows the four identities as zero, whatever it held, and
/// every other line stays byte for byte.
pub proof fn law_status_shows_root(rest: Seq<u8>, line: Seq<u8>)
    ensures
        status_line(lit("Uid:") + rest) == lit("Uid:\t0\t0\t0\t0\n"),
        status_line(lit("Gid:") + rest) == lit("Gid:\t0\t0\t0\t0\n"),
        line.len() < 4 || line[0] != 0x55 && line[0] != 0x47 || line[1] != 0x69 || line[2] != 0x64
            || line[3] != 0x3a ==> status_line(line) == line,
{
    reveal_strlit("Uid:");
    reveal_strlit("Gid:");
    lemma_ascii("Uid:");
    lemma_ascii("Gid:");
    let uid = lit("Uid:");
    let gid = lit("Gid:");
    assert((uid + rest).subrange(0, 4) =~= uid);
    assert((gid + rest).subrange(0, 4) =~= gid);
    assert((gid + rest).subrange(0, 4)[0] != uid[0]);
    if line.len() >= 4 {
        let start = line.subrange(0, 4);
        assert(start[0] == line[0] && start[1] == line[1] && start[2] == line[2] && start[3]
            == line[3]);
    }
}

/// The root filesystem itself reads as `/`; a path below it reads as what stands behind it; and a path that
/// is neither reads as it is. An argument is read so only where it is an absolute path.
pub proof fn law_guest_paths(rootfs: Seq<u8>, path: Seq<u8>)
    requires
        rootfs.len() > 0,
    ensures
        guest_path(rootfs, rootfs) == seq![0x2fu8],
        path.len() > 0 && path[0] == 0x2f ==> guest_path(rootfs, rootfs + path) == path,
        path != rootfs && !(rootfs + seq![0x2f]).is_prefix_of(path) ==> guest_path(rootfs, path)
            == path,
        path.len() == 0 || path[0] != 0x2f ==> guest_arg(rootfs, path) == path,
        path.len() > 0 && path[0] == 0x2f ==> guest_arg(rootfs, path) == guest_path(rootfs, path),
{
    crate::translate::law_covers(rootfs, path);
    assert(rootfs.subrange(0, rootfs.len() as int) =~= rootfs);
    reveal_strlit("/");
    lemma_ascii("/");
    assert(lit("/") =~= seq![0x2fu8]);
    let t = rootfs + path;
    assert(t.subrange(0, rootfs.len() as int) =~= rootfs);
    assert(t.skip(rootfs.len() as int) =~= path);
}

/// Fields in a row, each with the gap behind it.
pub open spec fn row(fields: Seq<(Seq<u8>, Seq<u8>)>) -> Seq<u8>
    decreases fields.len(),
{
    if fields.len() == 0 {
        Seq::empty()
    } else {
        row(fields.drop_last()) + fields.last().0 + fields.last().1
    }
}

/// Whether a text consists of blanks and tabs.
pub open spec fn all_blank(s: Seq<u8>) -> bool {
    forall|i: int| 0 <= i < s.len() ==> (#[trigger] s[i]) == 0x20 || s[i] == 0x09
}

/// Whether a text holds no blank and no tab.
pub open spec fn no_blank(s: Seq<u8>) -> bool {
    forall|i: int| 0 <= i < s.len() ==> (#[trigger] s[i]) != 0x20 && s[i] != 0x09
}

/// Whether these are fields of a line none of which is taken for its path: none is empty or holds a blank, a
/// gap follows each, and from the sixth on none begins with a slash.
pub open spec fn are_fields(fields: Seq<(Seq<u8>, Seq<u8>)>) -> bool {
    forall|k: int|
        0 <= k < fields.len() ==> (#[trigger] fields[k]).0.len() > 0 && no_blank(fields[k].0)
            && fields[k].1.len() > 0 && all_blank(fields[k].1) && (k >= 5 ==> fields[k].0[0] != 0x2f)
}

proof fn lemma_blank_run(line: Seq<u8>, from: int, to: int)
    requires
        0 <= from < to <= line.len(),
        forall|i: int| from <= i < to ==> is_blank(#[trigger] line[i]),
    ensures
        fields_before(line, to) == fields_before(line, from) + (if from > 0 && !is_blank(
            line[from - 1],
        ) {
            1int
        } else {
            0
        }),
        is_blank(line[to - 1]),
        forall|i: int| from <= i < to ==> !#[trigger] is_path_start(line, i),
    decreases to - from,
{
    assert(is_blank(line[to - 1]));
    if from + 1 < to {
        assert(is_blank(line[to - 2]));
        lemma_blank_run(line, from, to - 1);
    }
}

proof fn lemma_field_run(line: Seq<u8>, from: int, to: int)
    requires
        0 <= from < to <= line.len(),
        from == 0 || is_blank(line[from - 1]),
        forall|i: int| from <= i < to ==> !is_blank(#[trigger] line[i]),
    ensures
        fields_before(line, to) == fields_before(line, from),
        forall|i: int| from < i < to ==> !#[trigger] is_path_start(line, i),
    decreases to - from,
{
    assert(!is_blank(line[to - 1]));
    if from + 1 < to {
        lemma_field_run(line, from, to - 1);
        assert(!is_blank(line[to - 2]));
    }
}

/// Fields that are not taken for the path of a line hold no start of a path, and all of them count.
proof fn lemma_row(lead: Seq<u8>, fields: Seq<(Seq<u8>, Seq<u8>)>, tail: Seq<u8>)
    requires
        all_blank(lead),
        are_fields(fields),
    ensures
        ({
            let line = lead + row(fields) + tail;
            let n = lead.len() + row(fields).len();
            &&& fields_before(line, n as int) == fields.len()
            &&& n == 0 || is_blank(line[n - 1])
            &&& forall|i: int| 0 <= i < n ==> !#[trigger] is_path_start(line, i)
        }),
    decreases fields.len(),
{
    let line = lead + row(fields) + tail;
    let n = (lead.len() + row(fields).len()) as int;
    if fields.len() == 0 {
        assert(n == lead.len());
        if n > 0 {
            assert forall|i: int| 0 <= i < n implies is_blank(#[trigger] line[i]) by {
                assert(line[i] == lead[i]);
            }
            lemma_blank_run(line, 0, n);
        }
    } else {
        let rest = fields.drop_last();
        let field = fields.last().0;
        let gap = fields.last().1;
        assert(fields[fields.len() - 1] == fields.last());
        assert(are_fields(rest)) by {
            assert forall|k: int| 0 <= k < rest.len() implies (#[trigger] rest[k]).0.len() > 0
                && no_blank(rest[k].0) && rest[k].1.len() > 0 && all_blank(rest[k].1) && (k >= 5
                ==> rest[k].0[0] != 0x2f) by {
                assert(rest[k] == fields[k]);
            }
        }
        lemma_row(lead, rest, field + gap + tail);
        assert(line =~= lead + row(rest) + (field + gap + tail));
        let at = (lead.len() + row(rest).len()) as int;
        let end = at + field.len();
        assert forall|i: int| at <= i < end implies !is_blank(#[trigger] line[i]) by {
            assert(line[i] == field[i - at]);
        }
        assert forall|i: int| end <= i < n implies is_blank(#[trigger] line[i]) by {
            assert(line[i] == gap[i - end]);
        }
        lemma_field_run(line, at, end);
        assert(!is_blank(line[end - 1]));
        lemma_blank_run(line, end, n);
        assert(!is_path_start(line, at)) by {
            assert(line[at] == field[0]);
        }
    }
}

proof fn lemma_path_start_is(line: Seq<u8>, from: int, at: int)
    requires
        0 <= from <= at <= line.len(),
        at < line.len() ==> is_path_start(line, at),
        forall|i: int| from <= i < at ==> !#[trigger] is_path_start(line, i),
    ensures
        path_start(line, from) == at,
    decreases at - from,
{
    if from < at {
        assert(!is_path_start(line, from));
        lemma_path_start_is(line, from + 1, at);
    }
}

/// The path of a memory map line is its first field from the sixth on that begins with a slash. It ends in
/// front of the next blank, tab or newline, and is all that is rewritten of the line.
pub proof fn law_maps_line(
    rootfs: Seq<u8>,
    lead: Seq<u8>,
    fields: Seq<(Seq<u8>, Seq<u8>)>,
    path: Seq<u8>,
    rest: Seq<u8>,
)
    requires
        all_blank(lead),
        are_fields(fields),
        fields.len() >= 5,
        path.len() > 0,
        path[0] == 0x2f,
        no_blank(path),
        !path.contains(0x0a),
        rest.len() > 0 ==> rest[0] == 0x20 || rest[0] == 0x09 || rest[0] == 0x0a,
    ensures
        maps_line(rootfs, lead + row(fields) + path + rest) == lead + row(fields) + guest_path(
            rootfs,
            path,
        ) + rest,
{
    let head = lead + row(fields);
    let line = head + path + rest;
    let at = head.len() as int;
    let end = at + path.len();
    let stops = path_stops();
    assert(stops[0] == 0x20 && stops[1] == 0x09 && stops[2] == 0x0a);
    lemma_row(lead, fields, path + rest);
    assert(line =~= lead + row(fields) + (path + rest));
    assert(line[at] == path[0]);
    lemma_path_start_is(line, 0, at);
    assert forall|i: int| at <= i < end implies !stops.contains(#[trigger] line[i]) by {
        assert(line[i] == path[i - at]);
        assert(path.contains(path[i - at]));
    }
    if rest.len() > 0 {
        assert(line[end] == rest[0]);
    }
    lemma_first_of_is(line, at, stops, end);
    assert(line.take(at) =~= head);
    assert(line.subrange(at, end) =~= path);
    assert(line.skip(end) =~= rest);
}

/// A memory map line without a field from the sixth on that begins with a slash stays byte for byte.
pub proof fn law_maps_line_without_path(
    rootfs: Seq<u8>,
    lead: Seq<u8>,
    fields: Seq<(Seq<u8>, Seq<u8>)>,
    last: Seq<u8>,
)
    requires
        all_blank(lead),
        are_fields(fields),
        no_blank(last),
        last.len() > 0 && fields.len() >= 5 ==> last[0] != 0x2f,
    ensures
        maps_line(rootfs, lead + row(fields) + last) == lead + row(fields) + last,
{
    let line = lead + row(fields) + last;
    let at = (lead.len() + row(fields).len()) as int;
    lemma_row(lead, fields, last);
    if last.len() > 0 {
        assert forall|i: int| at <= i < line.len() implies !is_blank(#[trigger] line[i]) by {
            assert(line[i] == last[i - at]);
        }
        lemma_field_run(line, at, line.len() as int);
        assert(!is_path_start(line, at)) by {
            assert(line[at] == last[0]);
        }
    }
    lemma_path_start_is(line, 0, line.len() as int);
}

/// The command line is rewritten argument by argument: what stands behind the zero byte that closes an
/// argument is rewritten by itself, and an argument that no zero byte closes gets one.
pub proof fn law_cmdline_in_parts(rootfs: Seq<u8>, arg: Seq<u8>, rest: Seq<u8>)
    requires
        rootfs.len() > 0,
        !arg.contains(0),
    ensures
        cmdline_text(rootfs, arg + seq![0u8] + rest) == guest_arg(rootfs, arg) + seq![0u8]
            + cmdline_text(rootfs, rest),
        arg.len() > 0 ==> cmdline_text(rootfs, arg) == guest_arg(rootfs, arg) + seq![0u8],
        cmdline_text(rootfs, Seq::empty()) == Seq::<u8>::empty(),
{
    let zero = seq![0u8];
    assert(zero[0] == 0);
    let raw = arg + zero + rest;
    let n = arg.len() as int;
    assert forall|i: int| 0 <= i < n implies !zero.contains(#[trigger] raw[i]) by {
        assert(raw[i] == arg[i]);
        assert(arg.contains(arg[i]));
    }
    assert forall|i: int| 0 <= i < n implies !zero.contains(#[trigger] arg[i]) by {
        assert(arg.contains(arg[i]));
    }
    assert(raw[n] == 0);
    lemma_first_of_is(raw, 0, zero, n);
    lemma_first_of_is(arg, 0, zero, n);
    assert(raw.take(n) =~= arg);
    assert(arg.take(n) =~= arg);
    assert(raw.skip(n + 1) =~= rest);
    let shown = guest_arg(rootfs, arg);
    assert(shown.push(0) + cmdline_args(rootfs, rest) =~= shown + zero + cmdline_args(rootfs, rest));
    assert(cmdline_args(rootfs, Seq::empty()) =~= Seq::empty());
    assert(shown.push(0) + Seq::<u8>::empty() =~= shown + zero);
}

/// Whether a byte parts two fields of a mount table.
pub open spec fn parts_fields(b: u8) -> bool {
    b == 0x20 || b == 0x09 || b == 0x0a
}

/// Whether a text holds no byte that parts two fields of a mount table.
pub open spec fn is_one_field(s: Seq<u8>) -> bool {
    forall|i: int| 0 <= i < s.len() ==> !parts_fields(#[trigger] s[i])
}

proof fn lemma_stops(b: u8)
    ensures
        path_stops().contains(b) <==> parts_fields(b),
{
    let stops = path_stops();
    assert(stops[0] == 0x20 && stops[1] == 0x09 && stops[2] == 0x0a);
}

/// Where a field ends, the mount table is rewritten by itself in front and behind.
proof fn lemma_mounts_parted(rootfs: Seq<u8>, x: Seq<u8>, sep: u8, y: Seq<u8>, i: int)
    requires
        rootfs.len() > 0,
        is_one_field(rootfs),
        parts_fields(sep),
        0 <= i,
    ensures
        i <= x.len() ==> mounts_from(rootfs, x + seq![sep] + y, i) == mounts_from(rootfs, x, i)
            + seq![sep] + mounts_from(rootfs, y, 0),
        i <= y.len() ==> mounts_from(rootfs, x + seq![sep] + y, x.len() + 1 + i) == mounts_from(
            rootfs,
            y,
            i,
        ),
    decreases x.len() + y.len() - i,
{
    let raw = x + seq![sep] + y;
    let n = x.len() as int;
    let m = rootfs.len() as int;
    assert(forall|b: u8| path_stops().contains(b) <==> parts_fields(b)) by {
        assert forall|b: u8| path_stops().contains(b) <==> parts_fields(b) by {
            lemma_stops(b);
        }
    }
    if i < y.len() {
        let k = n + 1 + i;
        assert(raw[k] == y[i]);
        assert(raw[k - 1] == (if i == 0 {
            sep
        } else {
            y[i - 1]
        }));
        assert(raw.skip(k) =~= y.skip(i));
        assert(k + m < raw.len() ==> raw[k + m] == y[i + m]);
        assert(is_mount_path(rootfs, raw, k) == is_mount_path(rootfs, y, i));
        if is_mount_path(rootfs, y, i) {
            lemma_mounts_parted(rootfs, x, sep, y, i + m);
        } else {
            lemma_mounts_parted(rootfs, x, sep, y, i + 1);
        }
    }
    if i == n {
        assert(raw[i] == sep);
        assert(!is_mount_path(rootfs, raw, i)) by {
            if rootfs.is_prefix_of(raw.skip(i)) {
                assert(raw.skip(i).subrange(0, m)[0] == rootfs[0]);
                assert(raw.skip(i)[0] == sep);
            }
        }
        lemma_mounts_behind(rootfs, x, sep, y, 0);
        assert(mounts_from(rootfs, raw, i) =~= mounts_from(rootfs, x, i) + seq![sep] + mounts_from(
            rootfs,
            y,
            0,
        ));
    } else if i < n {
        assert(raw[i] == x[i]);
        assert(i > 0 ==> raw[i - 1] == x[i - 1]);
        let p = rootfs.is_prefix_of(raw.skip(i));
        let q = rootfs.is_prefix_of(x.skip(i));
        if i + m <= n {
            assert(raw.skip(i).subrange(0, m) =~= x.skip(i).subrange(0, m));
            assert(p == q);
            assert(raw[i + m] == (if i + m < n {
                x[i + m]
            } else {
                sep
            }));
        } else {
            if p {
                assert(raw.skip(i).subrange(0, m)[n - i] == rootfs[n - i]);
                assert(raw.skip(i)[n - i] == sep);
            }
        }
        assert(is_mount_path(rootfs, raw, i) == is_mount_path(rootfs, x, i));
        if is_mount_path(rootfs, x, i) {
            lemma_mounts_parted(rootfs, x, sep, y, i + m);
        } else {
            lemma_mounts_parted(rootfs, x, sep, y, i + 1);
        }
        assert(mounts_from(rootfs, raw, i) =~= mounts_from(rootfs, x, i) + seq![sep] + mounts_from(
            rootfs,
            y,
            0,
        ));
    }
}

/// Behind the end of a field the mount table is rewritten as if it started there.
proof fn lemma_mounts_behind(rootfs: Seq<u8>, x: Seq<u8>, sep: u8, y: Seq<u8>, i: int)
    requires
        rootfs.len() > 0,
        parts_fields(sep),
        0 <= i <= y.len(),
    ensures
        mounts_from(rootfs, x + seq![sep] + y, x.len() + 1 + i) == mounts_from(rootfs, y, i),
    decreases y.len() - i,
{
    let raw = x + seq![sep] + y;
    let m = rootfs.len() as int;
    if i < y.len() {
        let k = x.len() + 1 + i;
        lemma_stops(sep);
        assert(raw[k] == y[i]);
        assert(raw[k - 1] == (if i == 0 {
            sep
        } else {
            y[i - 1]
        }));
        assert(raw.skip(k) =~= y.skip(i));
        assert(k + m < raw.len() ==> raw[k + m] == y[i + m]);
        assert(is_mount_path(rootfs, raw, k) == is_mount_path(rootfs, y, i));
        if is_mount_path(rootfs, y, i) {
            lemma_mounts_behind(rootfs, x, sep, y, i + m);
        } else {
            lemma_mounts_behind(rootfs, x, sep, y, i + 1);
        }
    }
}

/// The mount table is rewritten field by field, in every line: blanks, tabs and newlines stay where they
/// are, and what stands on the two sides of one is rewritten by itself.
pub proof fn law_mounts_by_field(rootfs: Seq<u8>, x: Seq<u8>, sep: u8, y: Seq<u8>)
    requires
        rootfs.len() > 0,
        is_one_field(rootfs),
        parts_fields(sep),
    ensures
        mounts_text(rootfs, x + seq![sep] + y) == mounts_text(rootfs, x) + seq![sep] + mounts_text(
            rootfs,
            y,
        ),
{
    lemma_mounts_parted(rootfs, x, sep, y, 0);
}

/// A field of the mount table that is the root filesystem or a path below it reads as the program knows it,
/// and every other field stays byte for byte.
pub proof fn law_mounts_field(rootfs: Seq<u8>, field: Seq<u8>)
    requires
        rootfs.len() > 0,
        is_one_field(field),
    ensures
        mounts_text(rootfs, field) == guest_path(rootfs, field),
{
    let m = rootfs.len() as int;
    assert forall|i: int| 0 < i < field.len() implies !#[trigger] is_mount_path(rootfs, field, i) by {
        lemma_stops(field[i - 1]);
        assert(!parts_fields(field[i - 1]));
    }
    assert(field.skip(0) =~= field);
    if m < field.len() {
        lemma_stops(field[m]);
        assert(!parts_fields(field[m]));
    }
    if field.len() > 0 {
        assert(is_mount_path(rootfs, field, 0) == covers(rootfs, field));
        if covers(rootfs, field) {
            lemma_mounts_copied(rootfs, field, m, field.len() as int);
            assert(field.subrange(m, field.len() as int) =~= field.skip(m));
            assert(mounts_from(rootfs, field, m) =~= field.skip(m));
            assert(mounts_text(rootfs, field) =~= guest_path(rootfs, field));
        } else {
            lemma_mounts_copied(rootfs, field, 0, field.len() as int);
            assert(field.subrange(0, field.len() as int) + Seq::<u8>::empty() =~= field);
        }
    } else {
        assert(mounts_text(rootfs, field) =~= field);
    }
}

/// The kernel version names the release up to its first blank or tab, and `0.0.0` where the release is no
/// UTF-8.
pub proof fn law_version_names_release(word: Seq<u8>, rest: Seq<u8>)
    requires
        no_blank(word),
        rest.len() > 0 ==> rest[0] == 0x20 || rest[0] == 0x09,
    ensures
        vstd::utf8::valid_utf8(word + rest) ==> version_text(word + rest) == lit("Linux version ")
            + word + lit(" (lroot) #1 SMP Tue Jan 1 00:00:00 UTC 2019\n"),
        !vstd::utf8::valid_utf8(word + rest) ==> version_text(word + rest) == lit("Linux version ")
            + lit("0.0.0") + lit(" (lroot) #1 SMP Tue Jan 1 00:00:00 UTC 2019\n"),
{
    let stops = seq![0x20u8, 0x09u8];
    assert(stops[0] == 0x20 && stops[1] == 0x09);
    let text = word + rest;
    let n = word.len() as int;
    assert forall|i: int| 0 <= i < n implies !stops.contains(#[trigger] text[i]) by {
        assert(text[i] == word[i]);
    }
    if rest.len() > 0 {
        assert(text[n] == rest[0]);
    }
    lemma_first_of_is(text, 0, stops, n);
    assert(text.take(n) =~= word);
    reveal_strlit("0.0.0");
    lemma_ascii("0.0.0");
    let zeros = lit("0.0.0");
    assert forall|i: int| 0 <= i < zeros.len() implies !stops.contains(#[trigger] zeros[i]) by {}
    lemma_first_of_is(zeros, 0, stops, zeros.len() as int);
    assert(zeros.take(zeros.len() as int) =~= zeros);
}

/// Each made-up file stands at its own paths and at no others, and those of the identity maps only under
/// the fake identity.
pub proof fn law_which_files_are_made_up(root_id: bool, path: Seq<u8>)
    ensures
        fake_for(root_id, path) == Some(FakeKind::Version) <==> path == lit("/proc/version") || path
            == lit("/proc/sys/kernel/version") || path == lit("/proc/sys/kernel/osrelease"),
        fake_for(root_id, path) == Some(FakeKind::Maps) <==> path == lit("/proc/self/maps"),
        fake_for(root_id, path) == Some(FakeKind::Status) <==> path == lit("/proc/self/status"),
        fake_for(root_id, path) == Some(FakeKind::Mountinfo) <==> path == lit(
            "/proc/self/mountinfo",
        ) || path == lit("/proc/self/mounts"),
        fake_for(root_id, path) == Some(FakeKind::Cmdline) <==> path == lit("/proc/self/cmdline"),
        fake_for(root_id, path) matches Some(FakeKind::Fixed(_)) <==> path == lit(
            "/proc/self/setgroups",
        ) || path == lit("/proc/filesystems") || path == lit("/proc/self/attr/current") || (root_id
            && (path == lit("/proc/self/uid_map") || path == lit("/proc/self/gid_map"))),
        fake_for(root_id, path) matches Some(FakeKind::Fixed(text)) ==> text == (if path == lit(
            "/proc/self/setgroups",
        ) {
            lit("allow\n")
        } else if path == lit("/proc/self/attr/current") {
            lit("kernel=unconfined\n")
        } else if path == lit("/proc/filesystems") {
            lit(
                "nodev\tsysfs\nnodev\tproc\nnodev\tdevtmpfs\nnodev\tdevpts\nnodev\ttmpfs\nnodev\tsecurityfs\nnodev\tcgroup2\n\text4\n\tbtrfs\n\txfs\n\tvfat\n",
            )
        } else {
            lit("         0          0 4294967295\n")
        }),
{
    lemma_fake_paths();
}

/// The paths of the made-up files differ.
proof fn lemma_fake_paths()
    ensures
        forall|i: int, j: int|
            0 <= i < 13 && 0 <= j < 13 && i != j ==> #[trigger] fake_path(i) != #[trigger] fake_path(
                j,
            ),
        lit("/proc/version") == fake_path(0),
        lit("/proc/sys/kernel/version") == fake_path(1),
        lit("/proc/sys/kernel/osrelease") == fake_path(2),
        lit("/proc/self/maps") == fake_path(3),
        lit("/proc/self/status") == fake_path(4),
        lit("/proc/self/mountinfo") == fake_path(5),
        lit("/proc/self/mounts") == fake_path(6),
        lit("/proc/self/cmdline") == fake_path(7),
        lit("/proc/self/uid_map") == fake_path(8),
        lit("/proc/self/gid_map") == fake_path(9),
        lit("/proc/self/setgroups") == fake_path(10),
        lit("/proc/filesystems") == fake_path(11),
        lit("/proc/self/attr/current") == fake_path(12),
{
    reveal_strlit("/proc/version");
    reveal_strlit("/proc/sys/kernel/version");
    reveal_strlit("/proc/sys/kernel/osrelease");
    reveal_strlit("/proc/self/maps");
    reveal_strlit("/proc/self/status");
    reveal_strlit("/proc/self/mountinfo");
    reveal_strlit("/proc/self/mounts");
    reveal_strlit("/proc/self/cmdline");
    reveal_strlit("/proc/self/uid_map");
    reveal_strlit("/proc/self/gid_map");
    reveal_strlit("/proc/self/setgroups");
    reveal_strlit("/proc/filesystems");
    reveal_strlit("/proc/self/attr/current");
    lemma_ascii("/proc/version");
    lemma_ascii("/proc/sys/kernel/version");
    lemma_ascii("/proc/sys/kernel/osrelease");
    lemma_ascii("/proc/self/maps");
    lemma_ascii("/proc/self/status");
    lemma_ascii("/proc/self/mountinfo");
    lemma_ascii("/proc/self/mounts");
    lemma_ascii("/proc/self/cmdline");
    lemma_ascii("/proc/self/uid_map");
    lemma_ascii("/proc/self/gid_map");
    lemma_ascii("/proc/self/setgroups");
    lemma_ascii("/proc/filesystems");
    lemma_ascii("/proc/self/attr/current");
    assert forall|i: int, j: int| 0 <= i < 13 && 0 <= j < 13 && i != j implies #[trigger] fake_path(i)
        != #[trigger] fake_path(j) by {
        let a = fake_path(i);
        let b = fake_path(j);
        if a.len() == b.len() {
            assert(a[6] != b[6] || a[11] != b[11] || a[17] != b[17]);
        }
    }
}

spec fn fake_path(i: int) -> Seq<u8> {
    if i == 0 {
        lit("/proc/version")
    } else if i == 1 {
        lit("/proc/sys/kernel/version")
    } else if i == 2 {
        lit("/proc/sys/kernel/osrelease")
    } else if i == 3 {
        lit("/proc/self/maps")
    } else if i == 4 {
        lit("/proc/self/status")
    } else if i == 5 {
        lit("/proc/self/mountinfo")
    } else if i == 6 {
        lit("/proc/self/mounts")
    } else if i == 7 {
        lit("/proc/self/cmdline")
    } else if i == 8 {
        lit("/proc/self/uid_map")
    } else if i == 9 {
        lit("/proc/self/gid_map")
    } else if i == 10 {
        lit("/proc/self/setgroups")
    } else if i == 11 {
        lit("/proc/filesystems")
    } else {
        lit("/proc/self/attr/current")
    }
}

} // verus!
