//! System calls as values: what a hook asks the kernel for.
use vstd::prelude::*;

verus! {

/// The directory that stands for the current one.
pub const AT_FDCWD: i32 = -100;

/// Do not follow a symbolic link at the end of the path.
pub const AT_SYMLINK_NOFOLLOW: i64 = 0x100;

/// Remove a directory instead of a file.
pub const AT_REMOVEDIR: i64 = 0x200;

/// Operation not permitted.
pub const EPERM: i32 = 1;

/// The kernel's entry points that the hooks use.
#[derive(Clone, Copy, PartialEq, Eq, Structural)]
pub enum Sys {
    Capget,
    Chdir,
    Faccessat,
    Fchmodat,
    Fchownat,
    Fstatat,
    Getegid,
    Geteuid,
    Getgid,
    Getuid,
    Getxattr,
    Lgetxattr,
    Linkat,
    Listxattr,
    Llistxattr,
    Mkdirat,
    Mount,
    Openat,
    Personality,
    Readlinkat,
    Renameat,
    Statfs,
    Statx,
    Symlinkat,
    Truncate,
    Umount2,
    Unlinkat,
    Utimensat,
}

/// For what a file is opened.
#[derive(Clone, Copy, PartialEq, Eq, Structural)]
pub enum Access {
    Read,
    Write,
    ReadWrite,
}

/// What the mode string of a stream asks for.
#[derive(Clone, Copy, PartialEq, Eq, Structural)]
pub struct OpenMode {
    pub access: Access,
    pub create: bool,
    pub truncate: bool,
    pub append: bool,
    /// The permissions of a file that is created.
    pub permissions: u32,
}

/// One argument of a system call.
pub enum Arg {
    /// A number.
    Num(i64),
    /// A path, or the null pointer.
    Path(Option<Vec<u8>>),
    /// The argument at this position of the hooked call, as it was handed in.
    Caller(u8),
    /// The flags for opening a file in this mode.
    Mode(OpenMode),
    /// The flags for opening a directory for reading, to be closed by a later `exec`.
    Directory,
    /// A buffer of the path limit's size, which the call fills.
    Scratch,
    /// The access time and the modification time, in seconds and nanoseconds.
    Times((i64, i64), (i64, i64)),
}

/// One argument of a system call, as a mathematical value.
pub enum ArgValue {
    Num(int),
    Path(Option<Seq<u8>>),
    Caller(int),
    Mode(OpenMode),
    Directory,
    Scratch,
    Times((int, int), (int, int)),
}

impl View for Arg {
    type V = ArgValue;

    open spec fn view(&self) -> ArgValue {
        match self {
            Arg::Num(n) => ArgValue::Num(*n as int),
            Arg::Path(p) => ArgValue::Path(crate::bytes::contents_opt(*p)),
            Arg::Caller(i) => ArgValue::Caller(*i as int),
            Arg::Mode(m) => ArgValue::Mode(*m),
            Arg::Directory => ArgValue::Directory,
            Arg::Scratch => ArgValue::Scratch,
            Arg::Times(a, m) => ArgValue::Times(
                (a.0 as int, a.1 as int),
                (m.0 as int, m.1 as int),
            ),
        }
    }
}

/// A system call with its arguments in the kernel's order.
pub struct Call {
    pub sys: Sys,
    pub args: Vec<Arg>,
}

/// A system call as a mathematical value.
pub struct CallValue {
    pub sys: Sys,
    pub args: Seq<ArgValue>,
}

impl View for Call {
    type V = CallValue;

    open spec fn view(&self) -> CallValue {
        CallValue { sys: self.sys, args: self.args@.map_values(|a: Arg| a@) }
    }
}

/// A call of `sys` with the given arguments.
pub open spec fn call_of(sys: Sys, args: Seq<ArgValue>) -> CallValue {
    CallValue { sys, args }
}

pub(crate) fn call1(sys: Sys, a: Arg) -> (r: Call)
    ensures
        r@ == call_of(sys, seq![a@]),
{
    let mut args: Vec<Arg> = Vec::new();
    args.push(a);
    let r = Call { sys, args };
    proof {
        assert(r@.args =~= seq![a@]);
    }
    r
}

pub(crate) fn call2(sys: Sys, a: Arg, b: Arg) -> (r: Call)
    ensures
        r@ == call_of(sys, seq![a@, b@]),
{
    let mut r = call1(sys, a);
    let ghost head = r@.args;
    r.args.push(b);
    proof {
        assert(r@.args =~= head.push(b@));
        assert(head.push(b@) =~= seq![a@, b@]);
    }
    r
}

pub(crate) fn call3(sys: Sys, a: Arg, b: Arg, c: Arg) -> (r: Call)
    ensures
        r@ == call_of(sys, seq![a@, b@, c@]),
{
    let mut r = call2(sys, a, b);
    let ghost head = r@.args;
    r.args.push(c);
    proof {
        assert(r@.args =~= head.push(c@));
        assert(head.push(c@) =~= seq![a@, b@, c@]);
    }
    r
}

pub(crate) fn call4(sys: Sys, a: Arg, b: Arg, c: Arg, d: Arg) -> (r: Call)
    ensures
        r@ == call_of(sys, seq![a@, b@, c@, d@]),
{
    let mut r = call3(sys, a, b, c);
    let ghost head = r@.args;
    r.args.push(d);
    proof {
        assert(r@.args =~= head.push(d@));
        assert(head.push(d@) =~= seq![a@, b@, c@, d@]);
    }
    r
}

pub(crate) fn call5(sys: Sys, a: Arg, b: Arg, c: Arg, d: Arg, e: Arg) -> (r: Call)
    ensures
        r@ == call_of(sys, seq![a@, b@, c@, d@, e@]),
{
    let mut r = call4(sys, a, b, c, d);
    let ghost head = r@.args;
    r.args.push(e);
    proof {
        assert(r@.args =~= head.push(e@));
        assert(head.push(e@) =~= seq![a@, b@, c@, d@, e@]);
    }
    r
}

} // verus!
