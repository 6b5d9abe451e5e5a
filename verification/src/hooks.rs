//! The hooked calls on files: what each of them asks the kernel for instead.
//!
//! A path argument is a byte string, absent where the caller handed in the null pointer. An argument
//! that a hook only hands on does not occur here: the call refers to it by its position.
use vstd::prelude::*;

use crate::bytes::{part, same};
#[allow(unused_imports)]
use crate::bytes::{lit, slice_opt};
use crate::call::{call1, call2, call3, call4, call5};
use crate::call::{Access, Arg, Call, OpenMode, Sys, AT_FDCWD, AT_REMOVEDIR, AT_SYMLINK_NOFOLLOW};
#[allow(unused_imports)]
use crate::call::{call_of, ArgValue, CallValue};
use crate::config::Config;
#[allow(unused_imports)]
use crate::config::Settings;
use crate::procfs::{try_proc_fake_open, FakeFile};
#[allow(unused_imports)]
use crate::procfs::{fake_for, fake_view, FakeKind};
use crate::translate::{match_non_abs, save_path, strip_rootfs, translate_arg};
#[allow(unused_imports)]
use crate::translate::{stripped, translated_arg};

verus! {

/// The translated path argument of a call.
pub open spec fn moved(s: Settings, path: Option<&[u8]>) -> ArgValue {
    ArgValue::Path(translated_arg(s, slice_opt(path)))
}

/// The current directory as an argument.
pub open spec fn here() -> ArgValue {
    ArgValue::Num(AT_FDCWD as int)
}

/// The bytes of a path argument; the null pointer has none.
pub open spec fn path_bytes(path: Option<&[u8]>) -> Seq<u8> {
    match path {
        Some(p) => p@,
        None => Seq::empty(),
    }
}

/// What a hook that opens files does.
pub enum Action {
    /// It hands out a file that is made up.
    Fake(FakeFile),
    /// It makes a system call.
    Call(Call),
}

/// What a hook that opens files does, as a mathematical value.
pub enum ActionValue {
    Fake(FakeKind),
    Call(CallValue),
}

impl View for Action {
    type V = ActionValue;

    open spec fn view(&self) -> ActionValue {
        match self {
            Action::Fake(f) => ActionValue::Fake(f@),
            Action::Call(c) => ActionValue::Call(c@),
        }
    }
}

/// A made-up file where there is one for the path, else the given call.
pub open spec fn fake_or(s: Settings, path: Option<&[u8]>, call: CallValue) -> ActionValue {
    match fake_for(s.root_id, path_bytes(path)) {
        Some(f) => ActionValue::Fake(f),
        None => ActionValue::Call(call),
    }
}

fn move_arg(config: &Config, path: Option<&[u8]>) -> (r: Arg)
    ensures
        r@ == moved(config@, path),
{
    Arg::Path(translate_arg(config, path))
}

fn move_at_arg(config: &Config, path: Option<&[u8]>) -> (r: Arg)
    ensures
        r@ == moved(config@, path),
{
    Arg::Path(match_non_abs(config, path))
}

fn move_first_arg(config: &Config, path: Option<&[u8]>) -> (r: Arg)
    ensures
        r@ == moved(config@, path),
{
    Arg::Path(save_path(config, path))
}

fn here_arg() -> (r: Arg)
    ensures
        r@ == here(),
{
    Arg::Num(AT_FDCWD as i64)
}

fn fake_arg(config: &Config, path: Option<&[u8]>) -> (r: Option<FakeFile>)
    ensures
        fake_view(r) == fake_for(config@.root_id, path_bytes(path)),
{
    match path {
        Some(p) => try_proc_fake_open(config.root_id, p),
        None => {
            let none: Vec<u8> = Vec::new();
            proof {
                assert(none@ =~= Seq::<u8>::empty());
            }
            try_proc_fake_open(config.root_id, none.as_slice())
        },
    }
}

/// The call that `open(path, flags, mode)` comes down to where no file is made up.
pub open spec fn open_call(s: Settings, path: Option<&[u8]>) -> CallValue {
    call_of(Sys::Openat, seq![here(), moved(s, path), ArgValue::Caller(1), ArgValue::Caller(2)])
}

/// `open(path, flags, mode)`: opens a file, or one that is made up in its place.
pub fn open(config: &Config, path: Option<&[u8]>) -> (r: Action)
    ensures
        r@ == fake_or(config@, path, open_call(config@, path)),
{
    match fake_arg(config, path) {
        Some(f) => Action::Fake(f),
        None => Action::Call(open64(config, path)),
    }
}

/// The call that `openat(dirfd, path, flags, mode)` comes down to where no file is made up.
pub open spec fn openat_call(s: Settings, path: Option<&[u8]>) -> CallValue {
    call_of(
        Sys::Openat,
        seq![ArgValue::Caller(0), moved(s, path), ArgValue::Caller(2), ArgValue::Caller(3)],
    )
}

/// `openat(dirfd, path, flags, mode)`: opens a file, or one that is made up in its place; a relative
/// path counts as one of those only from the current directory, and then never is.
pub fn openat(config: &Config, dirfd: i32, path: Option<&[u8]>) -> (r: Action)
    ensures
        r@ == fake_or(config@, path, openat_call(config@, path)),
{
    let absolute: bool = match path {
        Some(p) => p.len() > 0 && p[0] == 0x2f,
        None => false,
    };
    proof {
        if fake_for(config@.root_id, path_bytes(path)) is Some {
            crate::procfs::law_fakes_are_absolute(config@.root_id, path_bytes(path));
        }
    }
    if absolute || dirfd == AT_FDCWD {
        if let Some(f) = fake_arg(config, path) {
            return Action::Fake(f);
        }
    }
    Action::Call(
        call4(
            Sys::Openat,
            Arg::Caller(0),
            move_at_arg(config, path),
            Arg::Caller(2),
            Arg::Caller(3),
        ),
    )
}

/// What the mode string of a stream asks for: its first byte tells reading, writing or appending, and
/// a plus sign right behind it adds the other direction.
pub open spec fn open_mode(mode: Seq<u8>) -> OpenMode {
    let plus = mode.len() > 1 && mode[1] == 0x2b;
    let writes = mode.len() > 0 && (mode[0] == 0x77 || mode[0] == 0x61);
    let reads = mode.len() > 0 && mode[0] == 0x72;
    OpenMode {
        access: if plus && (writes || reads) {
            Access::ReadWrite
        } else if writes {
            Access::Write
        } else {
            Access::Read
        },
        create: writes,
        truncate: mode.len() > 0 && mode[0] == 0x77,
        append: mode.len() > 0 && mode[0] == 0x61,
        permissions: if writes {
            0o644
        } else {
            0
        },
    }
}

/// What the mode string of a stream asks for.
pub fn fopen_flags(mode: &[u8]) -> (r: OpenMode)
    ensures
        r == open_mode(mode@),
{
    let plain = OpenMode {
        access: Access::Read,
        create: false,
        truncate: false,
        append: false,
        permissions: 0,
    };
    if mode.len() == 0 {
        return plain;
    }
    let plus: bool = mode.len() > 1 && mode[1] == 0x2b;
    let first: u8 = mode[0];
    if first == 0x72 {
        if plus {
            OpenMode { access: Access::ReadWrite, ..plain }
        } else {
            plain
        }
    } else if first == 0x77 || first == 0x61 {
        OpenMode {
            access: if plus {
                Access::ReadWrite
            } else {
                Access::Write
            },
            create: true,
            truncate: first == 0x77,
            append: first == 0x61,
            permissions: 0o644,
        }
    } else {
        plain
    }
}

/// The call that opens the file of a stream.
pub open spec fn stream_call(s: Settings, path: Option<&[u8]>, mode: Seq<u8>) -> CallValue {
    call_of(
        Sys::Openat,
        seq![
            here(),
            moved(s, path),
            ArgValue::Mode(open_mode(mode)),
            ArgValue::Num(open_mode(mode).permissions as int),
        ],
    )
}

fn open_stream(config: &Config, path: Option<&[u8]>, mode: &[u8]) -> (r: Call)
    ensures
        r@ == stream_call(config@, path, mode@),
{
    let how = fopen_flags(mode);
    call4(
        Sys::Openat,
        here_arg(),
        move_arg(config, path),
        Arg::Mode(how),
        Arg::Num(how.permissions as i64),
    )
}

/// `fopen(path, mode)`: opens the file of a stream, or one that is made up in its place.
pub fn fopen(config: &Config, path: Option<&[u8]>, mode: &[u8]) -> (r: Action)
    ensures
        r@ == fake_or(config@, path, stream_call(config@, path, mode@)),
{
    match fake_arg(config, path) {
        Some(f) => Action::Fake(f),
        None => Action::Call(open_stream(config, path, mode)),
    }
}

/// `freopen(path, mode, stream)`: opens the file that a stream is moved to.
pub fn freopen(config: &Config, path: Option<&[u8]>, mode: &[u8]) -> (r: Call)
    ensures
        r@ == stream_call(config@, path, mode@),
{
    open_stream(config, path, mode)
}

/// Whether a number of microseconds fits once it is nanoseconds.
pub open spec fn fits_nanos(usec: i64) -> bool {
    i64::MIN <= usec * 1000 <= i64::MAX
}

/// A time in seconds and microseconds, in seconds and nanoseconds.
pub fn timespec_of(time: (i64, i64)) -> (r: (i64, i64))
    requires
        fits_nanos(time.1),
    ensures
        r.0 == time.0,
        r.1 == time.1 * 1000,
{
    (time.0, time.1 * 1000)
}

/// The times that the kernel gets, or the null pointer.
pub open spec fn times_arg(times: Option<((i64, i64), (i64, i64))>) -> ArgValue {
    match times {
        Some(t) => ArgValue::Times(
            (t.0.0 as int, t.0.1 * 1000),
            (t.1.0 as int, t.1.1 * 1000),
        ),
        None => ArgValue::Num(0),
    }
}

/// `utimes(path, times)`: changes file times to the given access and modification time, each in seconds
/// and microseconds; without them the kernel gets the null pointer, for the current time.
pub fn utimes(config: &Config, path: Option<&[u8]>, times: Option<((i64, i64), (i64, i64))>) -> (r:
    Call)
    requires
        times matches Some(t) ==> fits_nanos(t.0.1) && fits_nanos(t.1.1),
    ensures
        r@ == call_of(
            Sys::Utimensat,
            seq![
                here(),
                moved(config@, path),
                times_arg(times),
                ArgValue::Num(0),
            ],
        ),
{
    let when = match times {
        Some(t) => Arg::Times(timespec_of(t.0), timespec_of(t.1)),
        None => Arg::Num(0),
    };
    proof {
        assert(when@ == times_arg(times));
    }
    call4(Sys::Utimensat, here_arg(), move_arg(config, path), when, Arg::Num(0))
}

/// What is written into the caller's buffer for a link target, and the number that is returned.
pub struct LinkReply {
    pub bytes: Vec<u8>,
    /// Whether a zero byte is written behind the bytes.
    pub closed: bool,
    pub count: usize,
}

impl LinkReply {
    /// The reply for a link target that fits or is cut to the caller's buffer.
    pub open spec fn is_reply(&self, target: Seq<u8>, size: int) -> bool {
        let n = if target.len() < size {
            target.len() as int
        } else {
            size
        };
        self.bytes@ == target.take(n) && self.closed == (n < size) && self.count == n
    }
}

/// What `readlink` does first.
pub enum LinkStart {
    /// It answers on its own.
    Answer(LinkReply),
    /// It asks the kernel.
    Ask(Call),
}

/// The call that reads a link from the current directory.
pub open spec fn readlink_call(s: Settings, path: Option<&[u8]>) -> CallValue {
    call_of(Sys::Readlinkat, seq![here(), moved(s, path), ArgValue::Scratch])
}

/// The call that every form of `readlink` from the current directory makes.
pub fn do_readlink(config: &Config, path: Option<&[u8]>) -> (r: Call)
    ensures
        r@ == readlink_call(config@, path),
{
    call3(Sys::Readlinkat, here_arg(), move_arg(config, path), Arg::Scratch)
}

/// `readlink(path, buf, size)`: the root of the process is the root; every other link is read.
pub fn readlink(config: &Config, path: Option<&[u8]>, size: usize) -> (r: LinkStart)
    ensures
        match r {
            LinkStart::Answer(reply) => {
                &&& path_bytes(path) == lit("/proc/self/root")
                &&& reply.count == 1
                &&& reply.bytes@ == (if size >= 1 {
                    lit("/")
                } else {
                    Seq::empty()
                })
                &&& reply.closed == (size >= 2)
            },
            LinkStart::Ask(call) => {
                &&& path_bytes(path) != lit("/proc/self/root")
                &&& call@ == readlink_call(config@, path)
            },
        },
{
    let is_root: bool = match path {
        Some(p) => same(p, "/proc/self/root".as_bytes()),
        None => {
            proof {
                reveal_strlit("/proc/self/root");
                vstd::string::is_ascii_spec_bytes("/proc/self/root");
                assert("/proc/self/root".is_ascii());
                assert(lit("/proc/self/root").len() == 15);
            }
            false
        },
    };
    if is_root {
        let bytes: Vec<u8> = if size >= 1 {
            vstd::slice::slice_to_vec("/".as_bytes())
        } else {
            Vec::new()
        };
        LinkStart::Answer(LinkReply { bytes, closed: size >= 2, count: 1 })
    } else {
        LinkStart::Ask(do_readlink(config, path))
    }
}

/// `readlinkat(dirfd, path, buf, size)`: reads a link; an absolute path is translated whatever the
/// directory.
pub fn readlinkat(config: &Config, path: Option<&[u8]>) -> (r: Call)
    ensures
        r@ == call_of(
            Sys::Readlinkat,
            seq![ArgValue::Caller(0), moved(config@, path), ArgValue::Scratch],
        ),
{
    call3(Sys::Readlinkat, Arg::Caller(0), move_at_arg(config, path), Arg::Scratch)
}

/// The reply to a link target that the kernel gave, for a buffer of `size` bytes: the root filesystem
/// is taken off its front.
pub fn readlink_reply(config: &Config, raw: &[u8], size: usize) -> (r: LinkReply)
    ensures
        r.is_reply(stripped(config@.rootfs, raw@), size as int),
{
    let target = strip_rootfs(config, raw);
    let n: usize = if target.len() < size {
        target.len()
    } else {
        size
    };
    let bytes = part(target.as_slice(), 0, n);
    proof {
        assert(target@.subrange(0, n as int) =~= target@.take(n as int));
    }
    LinkReply { bytes, closed: n < size, count: n }
}

/// `__readlink_chk(path, buf, size, bufsize)`: reads a link; the root of the process is no exception here.
pub fn __readlink_chk(config: &Config, path: Option<&[u8]>) -> (r: Call)
    ensures
        r@ == readlink_call(config@, path),
{
    do_readlink(config, path)
}

/// What comes of reading a link, given what the kernel returned and the buffer that it filled: its
/// failure or its empty answer as it is, else the reply to the target.
pub fn finish_readlink(config: &Config, n: i64, scratch: &[u8], size: usize) -> (r: Result<
    LinkReply,
    i64,
>)
    requires
        n <= scratch@.len(),
    ensures
        n <= 0 ==> r == Err::<LinkReply, i64>(n),
        n > 0 ==> (r matches Ok(reply) && reply.is_reply(
            stripped(config@.rootfs, scratch@.take(n as int)),
            size as int,
        )),
{
    if n <= 0 {
        return Err(n);
    }
    proof {
        assert(scratch.len() == scratch@.len());
        assert(scratch@.subrange(0, n as int) =~= scratch@.take(n as int));
    }
    let raw = vstd::slice::slice_subrange(scratch, 0, n as usize);
    Ok(readlink_reply(config, raw, size))
}

/// `open64(path, flags, mode)`: opens a file; no file below `/proc` is replaced here.
pub fn open64(config: &Config, path: Option<&[u8]>) -> (r: Call)
    ensures
        r@ == call_of(
            Sys::Openat,
            seq![here(), moved(config@, path), ArgValue::Caller(1), ArgValue::Caller(2)],
        ),
{
    call4(Sys::Openat, here_arg(), move_arg(config, path), Arg::Caller(1), Arg::Caller(2))
}

/// `stat(path, buf)`: asks for the status of a file.
pub fn stat(config: &Config, path: Option<&[u8]>) -> (r: Call)
    ensures
        r@ == call_of(
            Sys::Fstatat,
            seq![here(), moved(config@, path), ArgValue::Caller(1), ArgValue::Num(0)],
        ),
{
    call4(Sys::Fstatat, here_arg(), move_arg(config, path), Arg::Caller(1), Arg::Num(0))
}

/// `lstat(path, buf)`: asks for the status of a file or symbolic link.
pub fn lstat(config: &Config, path: Option<&[u8]>) -> (r: Call)
    ensures
        r@ == call_of(
            Sys::Fstatat,
            seq![
                here(),
                moved(config@, path),
                ArgValue::Caller(1),
                ArgValue::Num(AT_SYMLINK_NOFOLLOW as int),
            ],
        ),
{
    call4(
        Sys::Fstatat,
        here_arg(),
        move_arg(config, path),
        Arg::Caller(1),
        Arg::Num(AT_SYMLINK_NOFOLLOW),
    )
}

/// `statx(dirfd, path, flags, mask, buf)`: asks for the extended status of a file.
pub fn statx(config: &Config, path: Option<&[u8]>) -> (r: Call)
    ensures
        r@ == call_of(
            Sys::Statx,
            seq![
                ArgValue::Caller(0),
                moved(config@, path),
                ArgValue::Caller(2),
                ArgValue::Caller(3),
                ArgValue::Caller(4),
            ],
        ),
{
    call5(
        Sys::Statx,
        Arg::Caller(0),
        move_at_arg(config, path),
        Arg::Caller(2),
        Arg::Caller(3),
        Arg::Caller(4),
    )
}

/// `access(path, mode)`: checks permissions.
pub fn access(config: &Config, path: Option<&[u8]>) -> (r: Call)
    ensures
        r@ == call_of(
            Sys::Faccessat,
            seq![here(), moved(config@, path), ArgValue::Caller(1), ArgValue::Num(0)],
        ),
{
    call4(Sys::Faccessat, here_arg(), move_arg(config, path), Arg::Caller(1), Arg::Num(0))
}

/// `faccessat(dirfd, path, mode, flags)`: checks permissions.
pub fn faccessat(config: &Config, path: Option<&[u8]>) -> (r: Call)
    ensures
        r@ == call_of(
            Sys::Faccessat,
            seq![
                ArgValue::Caller(0),
                moved(config@, path),
                ArgValue::Caller(2),
                ArgValue::Caller(3),
            ],
        ),
{
    call4(Sys::Faccessat, Arg::Caller(0), move_at_arg(config, path), Arg::Caller(2), Arg::Caller(3))
}

/// `listxattr(path, list, size)`: lists extended attributes.
pub fn listxattr(config: &Config, path: Option<&[u8]>) -> (r: Call)
    ensures
        r@ == call_of(
            Sys::Listxattr,
            seq![moved(config@, path), ArgValue::Caller(1), ArgValue::Caller(2)],
        ),
{
    call3(Sys::Listxattr, move_arg(config, path), Arg::Caller(1), Arg::Caller(2))
}

/// `llistxattr(path, list, size)`: lists extended attributes of a file or symbolic link.
pub fn llistxattr(config: &Config, path: Option<&[u8]>) -> (r: Call)
    ensures
        r@ == call_of(
            Sys::Llistxattr,
            seq![moved(config@, path), ArgValue::Caller(1), ArgValue::Caller(2)],
        ),
{
    call3(Sys::Llistxattr, move_arg(config, path), Arg::Caller(1), Arg::Caller(2))
}

/// `getxattr(path, name, value, size)`: reads an extended attribute.
pub fn getxattr(config: &Config, path: Option<&[u8]>) -> (r: Call)
    ensures
        r@ == call_of(
            Sys::Getxattr,
            seq![
                moved(config@, path),
                ArgValue::Caller(1),
                ArgValue::Caller(2),
                ArgValue::Caller(3),
            ],
        ),
{
    call4(Sys::Getxattr, move_arg(config, path), Arg::Caller(1), Arg::Caller(2), Arg::Caller(3))
}

/// `lgetxattr(path, name, value, size)`: reads an extended attribute of a file or symbolic link.
pub fn lgetxattr(config: &Config, path: Option<&[u8]>) -> (r: Call)
    ensures
        r@ == call_of(
            Sys::Lgetxattr,
            seq![
                moved(config@, path),
                ArgValue::Caller(1),
                ArgValue::Caller(2),
                ArgValue::Caller(3),
            ],
        ),
{
    call4(Sys::Lgetxattr, move_arg(config, path), Arg::Caller(1), Arg::Caller(2), Arg::Caller(3))
}

/// `mkdir(path, mode)`: makes a directory.
pub fn mkdir(config: &Config, path: Option<&[u8]>) -> (r: Call)
    ensures
        r@ == call_of(
            Sys::Mkdirat,
            seq![here(), moved(config@, path), ArgValue::Caller(1)],
        ),
{
    call3(Sys::Mkdirat, here_arg(), move_arg(config, path), Arg::Caller(1))
}

/// `rmdir(path)`: removes a directory.
pub fn rmdir(config: &Config, path: Option<&[u8]>) -> (r: Call)
    ensures
        r@ == call_of(
            Sys::Unlinkat,
            seq![here(), moved(config@, path), ArgValue::Num(AT_REMOVEDIR as int)],
        ),
{
    call3(Sys::Unlinkat, here_arg(), move_arg(config, path), Arg::Num(AT_REMOVEDIR))
}

/// `unlink(path)`: removes a file.
pub fn unlink(config: &Config, path: Option<&[u8]>) -> (r: Call)
    ensures
        r@ == call_of(
            Sys::Unlinkat,
            seq![here(), moved(config@, path), ArgValue::Num(0)],
        ),
{
    call3(Sys::Unlinkat, here_arg(), move_arg(config, path), Arg::Num(0))
}

/// `rename(old, new)`: renames a file; both names are translated.
pub fn rename(config: &Config, old_path: Option<&[u8]>, new_path: Option<&[u8]>) -> (r: Call)
    ensures
        r@ == call_of(
            Sys::Renameat,
            seq![here(), moved(config@, old_path), here(), moved(config@, new_path)],
        ),
{
    call4(
        Sys::Renameat,
        here_arg(),
        move_first_arg(config, old_path),
        here_arg(),
        move_arg(config, new_path),
    )
}

/// `symlink(target, link)`: makes a symbolic link; its target is stored as it is.
pub fn symlink(config: &Config, link_path: Option<&[u8]>) -> (r: Call)
    ensures
        r@ == call_of(
            Sys::Symlinkat,
            seq![ArgValue::Caller(0), here(), moved(config@, link_path)],
        ),
{
    call3(Sys::Symlinkat, Arg::Caller(0), here_arg(), move_arg(config, link_path))
}

/// `chdir(path)`: changes the current directory.
pub fn chdir(config: &Config, path: Option<&[u8]>) -> (r: Call)
    ensures
        r@ == call_of(
            Sys::Chdir,
            seq![moved(config@, path)],
        ),
{
    call1(Sys::Chdir, move_arg(config, path))
}

/// `opendir(path)`: opens a directory.
pub fn opendir(config: &Config, path: Option<&[u8]>) -> (r: Call)
    ensures
        r@ == call_of(
            Sys::Openat,
            seq![here(), moved(config@, path), ArgValue::Directory, ArgValue::Num(0)],
        ),
{
    call4(Sys::Openat, here_arg(), move_arg(config, path), Arg::Directory, Arg::Num(0))
}

/// `chmod(path, mode)`: changes permissions.
pub fn chmod(config: &Config, path: Option<&[u8]>) -> (r: Call)
    ensures
        r@ == call_of(
            Sys::Fchmodat,
            seq![here(), moved(config@, path), ArgValue::Caller(1)],
        ),
{
    call3(Sys::Fchmodat, here_arg(), move_arg(config, path), Arg::Caller(1))
}

/// `chown(path, owner, group)`: changes the owner.
pub fn chown(config: &Config, path: Option<&[u8]>) -> (r: Call)
    ensures
        r@ == call_of(
            Sys::Fchownat,
            seq![
                here(),
                moved(config@, path),
                ArgValue::Caller(1),
                ArgValue::Caller(2),
                ArgValue::Num(0),
            ],
        ),
{
    call5(
        Sys::Fchownat,
        here_arg(),
        move_arg(config, path),
        Arg::Caller(1),
        Arg::Caller(2),
        Arg::Num(0),
    )
}

/// `utimensat(dirfd, path, times, flags)`: changes file times.
pub fn utimensat(config: &Config, path: Option<&[u8]>) -> (r: Call)
    ensures
        r@ == call_of(
            Sys::Utimensat,
            seq![
                ArgValue::Caller(0),
                moved(config@, path),
                ArgValue::Caller(2),
                ArgValue::Caller(3),
            ],
        ),
{
    call4(Sys::Utimensat, Arg::Caller(0), move_arg(config, path), Arg::Caller(2), Arg::Caller(3))
}

/// `fstatat(dirfd, path, buf, flags)`: asks for the status of a file.
pub fn fstatat(config: &Config, path: Option<&[u8]>) -> (r: Call)
    ensures
        r@ == call_of(
            Sys::Fstatat,
            seq![
                ArgValue::Caller(0),
                moved(config@, path),
                ArgValue::Caller(2),
                ArgValue::Caller(3),
            ],
        ),
{
    call4(Sys::Fstatat, Arg::Caller(0), move_at_arg(config, path), Arg::Caller(2), Arg::Caller(3))
}

/// `mkdirat(dirfd, path, mode)`: makes a directory.
pub fn mkdirat(config: &Config, path: Option<&[u8]>) -> (r: Call)
    ensures
        r@ == call_of(
            Sys::Mkdirat,
            seq![ArgValue::Caller(0), moved(config@, path), ArgValue::Caller(2)],
        ),
{
    call3(Sys::Mkdirat, Arg::Caller(0), move_at_arg(config, path), Arg::Caller(2))
}

/// `unlinkat(dirfd, path, flags)`: removes a file or directory.
pub fn unlinkat(config: &Config, path: Option<&[u8]>) -> (r: Call)
    ensures
        r@ == call_of(
            Sys::Unlinkat,
            seq![ArgValue::Caller(0), moved(config@, path), ArgValue::Caller(2)],
        ),
{
    call3(Sys::Unlinkat, Arg::Caller(0), move_at_arg(config, path), Arg::Caller(2))
}

/// `renameat(oldfd, old, newfd, new)`: renames a file; both names are translated.
pub fn renameat(config: &Config, old_path: Option<&[u8]>, new_path: Option<&[u8]>) -> (r: Call)
    ensures
        r@ == call_of(
            Sys::Renameat,
            seq![
                ArgValue::Caller(0),
                moved(config@, old_path),
                ArgValue::Caller(2),
                moved(config@, new_path),
            ],
        ),
{
    call4(
        Sys::Renameat,
        Arg::Caller(0),
        move_first_arg(config, old_path),
        Arg::Caller(2),
        move_at_arg(config, new_path),
    )
}

/// `renameat2(oldfd, old, newfd, new, flags)`: renames a file through the call without flags, which takes
/// no notice of them.
pub fn renameat2(config: &Config, old_path: Option<&[u8]>, new_path: Option<&[u8]>) -> (r: Call)
    ensures
        r@ == call_of(
            Sys::Renameat,
            seq![
                ArgValue::Caller(0),
                moved(config@, old_path),
                ArgValue::Caller(2),
                moved(config@, new_path),
                ArgValue::Caller(4),
            ],
        ),
{
    call5(
        Sys::Renameat,
        Arg::Caller(0),
        move_first_arg(config, old_path),
        Arg::Caller(2),
        move_at_arg(config, new_path),
        Arg::Caller(4),
    )
}

/// `linkat(oldfd, old, newfd, new, flags)`: makes a hard link; both names are translated.
pub fn linkat(config: &Config, old_path: Option<&[u8]>, new_path: Option<&[u8]>) -> (r: Call)
    ensures
        r@ == call_of(
            Sys::Linkat,
            seq![
                ArgValue::Caller(0),
                moved(config@, old_path),
                ArgValue::Caller(2),
                moved(config@, new_path),
                ArgValue::Caller(4),
            ],
        ),
{
    call5(
        Sys::Linkat,
        Arg::Caller(0),
        move_first_arg(config, old_path),
        Arg::Caller(2),
        move_at_arg(config, new_path),
        Arg::Caller(4),
    )
}

/// `symlinkat(target, newfd, link)`: makes a symbolic link; its target is stored as it is.
pub fn symlinkat(config: &Config, link_path: Option<&[u8]>) -> (r: Call)
    ensures
        r@ == call_of(
            Sys::Symlinkat,
            seq![ArgValue::Caller(0), ArgValue::Caller(1), moved(config@, link_path)],
        ),
{
    call3(Sys::Symlinkat, Arg::Caller(0), Arg::Caller(1), move_at_arg(config, link_path))
}

/// `truncate(path, length)`: cuts or extends a file.
pub fn truncate(config: &Config, path: Option<&[u8]>) -> (r: Call)
    ensures
        r@ == call_of(
            Sys::Truncate,
            seq![moved(config@, path), ArgValue::Caller(1)],
        ),
{
    call2(Sys::Truncate, move_arg(config, path), Arg::Caller(1))
}

/// `link(old, new)`: makes a hard link; both names are translated.
pub fn link(config: &Config, old_path: Option<&[u8]>, new_path: Option<&[u8]>) -> (r: Call)
    ensures
        r@ == call_of(
            Sys::Linkat,
            seq![
                here(),
                moved(config@, old_path),
                here(),
                moved(config@, new_path),
                ArgValue::Num(0),
            ],
        ),
{
    call5(
        Sys::Linkat,
        here_arg(),
        move_first_arg(config, old_path),
        here_arg(),
        move_arg(config, new_path),
        Arg::Num(0),
    )
}

/// `lchown(path, owner, group)`: changes the owner of a file or symbolic link.
pub fn lchown(config: &Config, path: Option<&[u8]>) -> (r: Call)
    ensures
        r@ == call_of(
            Sys::Fchownat,
            seq![
                here(),
                moved(config@, path),
                ArgValue::Caller(1),
                ArgValue::Caller(2),
                ArgValue::Num(AT_SYMLINK_NOFOLLOW as int),
            ],
        ),
{
    call5(
        Sys::Fchownat,
        here_arg(),
        move_arg(config, path),
        Arg::Caller(1),
        Arg::Caller(2),
        Arg::Num(AT_SYMLINK_NOFOLLOW),
    )
}

/// `fchmodat(dirfd, path, mode, flags)`: changes permissions.
pub fn fchmodat(config: &Config, path: Option<&[u8]>) -> (r: Call)
    ensures
        r@ == call_of(
            Sys::Fchmodat,
            seq![
                ArgValue::Caller(0),
                moved(config@, path),
                ArgValue::Caller(2),
                ArgValue::Caller(3),
            ],
        ),
{
    call4(Sys::Fchmodat, Arg::Caller(0), move_at_arg(config, path), Arg::Caller(2), Arg::Caller(3))
}

/// `fchownat(dirfd, path, owner, group, flags)`: changes the owner.
pub fn fchownat(config: &Config, path: Option<&[u8]>) -> (r: Call)
    ensures
        r@ == call_of(
            Sys::Fchownat,
            seq![
                ArgValue::Caller(0),
                moved(config@, path),
                ArgValue::Caller(2),
                ArgValue::Caller(3),
                ArgValue::Caller(4),
            ],
        ),
{
    call5(
        Sys::Fchownat,
        Arg::Caller(0),
        move_at_arg(config, path),
        Arg::Caller(2),
        Arg::Caller(3),
        Arg::Caller(4),
    )
}

/// `statfs(path, buf)`: asks for the status of a file system.
pub fn statfs(config: &Config, path: Option<&[u8]>) -> (r: Call)
    ensures
        r@ == call_of(
            Sys::Statfs,
            seq![moved(config@, path), ArgValue::Caller(1)],
        ),
{
    call2(Sys::Statfs, move_arg(config, path), Arg::Caller(1))
}

/// `mount(source, target, fstype, flags, data)`: mounts a file system; only the target is translated.
pub fn mount(config: &Config, target: Option<&[u8]>) -> (r: Call)
    ensures
        r@ == call_of(
            Sys::Mount,
            seq![
                ArgValue::Caller(0),
                moved(config@, target),
                ArgValue::Caller(2),
                ArgValue::Caller(3),
                ArgValue::Caller(4),
            ],
        ),
{
    call5(
        Sys::Mount,
        Arg::Caller(0),
        move_arg(config, target),
        Arg::Caller(2),
        Arg::Caller(3),
        Arg::Caller(4),
    )
}

/// `umount(target)`: unmounts a file system.
pub fn umount(config: &Config, target: Option<&[u8]>) -> (r: Call)
    ensures
        r@ == call_of(
            Sys::Umount2,
            seq![moved(config@, target), ArgValue::Num(0)],
        ),
{
    call2(Sys::Umount2, move_arg(config, target), Arg::Num(0))
}

/// `umount2(target, flags)`: unmounts a file system.
pub fn umount2(config: &Config, target: Option<&[u8]>) -> (r: Call)
    ensures
        r@ == call_of(
            Sys::Umount2,
            seq![moved(config@, target), ArgValue::Caller(1)],
        ),
{
    call2(Sys::Umount2, move_arg(config, target), Arg::Caller(1))
}

/// A path argument reaches the kernel translated, the null pointer as the null pointer, and the current
/// directory under its own number.
pub proof fn law_path_arguments(s: Settings, path: &[u8])
    ensures
        moved(s, Some(path)) == ArgValue::Path(Some(crate::translate::translated(s, path@))),
        moved(s, None) == ArgValue::Path(None),
        here() == ArgValue::Num(-100),
        path_bytes(Some(path)) == path@,
        path_bytes(None).len() == 0,
{
}

/// A call names what is called and hands its arguments over in their order.
pub proof fn law_calls(s: Settings, path: Option<&[u8]>, mode: Seq<u8>, sys: Sys, args: Seq<ArgValue>)
    ensures
        call_of(sys, args).sys == sys,
        call_of(sys, args).args == args,
        open_call(s, path).sys == Sys::Openat,
        open_call(s, path).args =~= seq![
            ArgValue::Num(-100),
            moved(s, path),
            ArgValue::Caller(1),
            ArgValue::Caller(2),
        ],
        openat_call(s, path).sys == Sys::Openat,
        openat_call(s, path).args =~= seq![
            ArgValue::Caller(0),
            moved(s, path),
            ArgValue::Caller(2),
            ArgValue::Caller(3),
        ],
        stream_call(s, path, mode).sys == Sys::Openat,
        stream_call(s, path, mode).args =~= seq![
            ArgValue::Num(-100),
            moved(s, path),
            ArgValue::Mode(open_mode(mode)),
            ArgValue::Num(open_mode(mode).permissions as int),
        ],
        readlink_call(s, path).sys == Sys::Readlinkat,
        readlink_call(s, path).args =~= seq![
            ArgValue::Num(-100),
            moved(s, path),
            ArgValue::Scratch,
        ],
{
}

/// A made-up file is handed out exactly at the paths that have one, and that one; elsewhere the call is made.
pub proof fn law_made_up_or_called(s: Settings, path: Option<&[u8]>, call: CallValue)
    ensures
        fake_for(s.root_id, path_bytes(path)) is Some ==> fake_or(s, path, call)
            == ActionValue::Fake(fake_for(s.root_id, path_bytes(path))->0),
        fake_for(s.root_id, path_bytes(path)) is None ==> fake_or(s, path, call)
            == ActionValue::Call(call),
{
}

/// Reading opens a file that is there, writing makes it or empties it, and appending makes it or goes on at
/// its end; a plus sign right behind the first byte of a mode asks for both directions. A mode that begins
/// with anything else reads.
pub proof fn law_stream_modes(rest: Seq<u8>, mode: Seq<u8>)
    ensures
        ({
            let both = rest.len() > 0 && rest[0] == 0x2b;
            let r = open_mode(seq![0x72u8] + rest);
            let w = open_mode(seq![0x77u8] + rest);
            let a = open_mode(seq![0x61u8] + rest);
            &&& r.access == (if both {
                Access::ReadWrite
            } else {
                Access::Read
            })
            &&& w.access == (if both {
                Access::ReadWrite
            } else {
                Access::Write
            })
            &&& a.access == w.access
            &&& !r.create && !r.truncate && !r.append && r.permissions == 0
            &&& w.create && w.truncate && !w.append && w.permissions == 420
            &&& a.create && !a.truncate && a.append && a.permissions == 420
        }),
        mode.len() == 0 || (mode[0] != 0x72 && mode[0] != 0x77 && mode[0] != 0x61) ==> open_mode(mode)
            == (OpenMode {
            access: Access::Read,
            create: false,
            truncate: false,
            append: false,
            permissions: 0,
        }),
{
    let r = seq![0x72u8] + rest;
    let w = seq![0x77u8] + rest;
    let a = seq![0x61u8] + rest;
    assert(rest.len() > 0 ==> r[1] == rest[0] && w[1] == rest[0] && a[1] == rest[0]);
}

/// The access time comes first and the modification time second, each with a thousand nanoseconds for every
/// microsecond; without times the kernel gets the null pointer.
pub proof fn law_times(access: (i64, i64), modification: (i64, i64), usec: i64)
    ensures
        times_arg(Some((access, modification))) == ArgValue::Times(
            (access.0 as int, 1000 * access.1),
            (modification.0 as int, 1000 * modification.1),
        ),
        times_arg(None) == ArgValue::Num(0),
        fits_nanos(usec) <==> -9223372036854775 <= usec <= 9223372036854775,
{
}

/// The reply to a link target is as much of the start of the target as fits into the buffer, its length is
/// what is returned, and a zero byte follows where there is room for one.
pub proof fn law_link_replies(reply: LinkReply, target: Seq<u8>, size: usize)
    requires
        reply.is_reply(target, size as int),
    ensures
        reply.bytes@.is_prefix_of(target),
        reply.bytes@.len() == reply.count,
        reply.count <= size,
        reply.count == size || reply.bytes@ == target,
        reply.closed <==> reply.count < size,
        target.len() <= size ==> reply.bytes@ == target,
{
    let n = reply.count as int;
    assert(target.take(n) =~= target.subrange(0, n));
    if target.len() <= size {
        assert(target.take(n) =~= target);
    }
}

} // verus!
