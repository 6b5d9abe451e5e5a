//! Who the program takes itself for, on which machine, and what it may not do.
use vstd::prelude::*;

use crate::bytes::{append, part};
use crate::call::{call1, call2};
use crate::call::{Arg, Call, Sys, EPERM};
#[allow(unused_imports)]
use crate::call::{call_of, ArgValue};
use crate::config::Config;

verus! {

/// What a hook that asks for a user or group number does.
pub enum IdAction {
    /// It answers on its own.
    Answer(u32),
    /// It asks the kernel by this call, which takes no argument.
    Ask(Sys),
}

/// Number 0 under the fake identity, else what the kernel says.
pub fn real_uid(config: &Config, sys: Sys) -> (r: IdAction)
    ensures
        r == (if config@.root_id {
            IdAction::Answer(0)
        } else {
            IdAction::Ask(sys)
        }),
{
    if config.root_id {
        IdAction::Answer(0)
    } else {
        IdAction::Ask(sys)
    }
}

/// `getuid()`.
pub fn getuid(config: &Config) -> (r: IdAction)
    ensures
        config@.root_id ==> r == IdAction::Answer(0),
        !config@.root_id ==> r == IdAction::Ask(Sys::Getuid),
{
    real_uid(config, Sys::Getuid)
}

/// `geteuid()`.
pub fn geteuid(config: &Config) -> (r: IdAction)
    ensures
        config@.root_id ==> r == IdAction::Answer(0),
        !config@.root_id ==> r == IdAction::Ask(Sys::Geteuid),
{
    real_uid(config, Sys::Geteuid)
}

/// `getgid()`.
pub fn getgid(config: &Config) -> (r: IdAction)
    ensures
        config@.root_id ==> r == IdAction::Answer(0),
        !config@.root_id ==> r == IdAction::Ask(Sys::Getgid),
{
    real_uid(config, Sys::Getgid)
}

/// `getegid()`.
pub fn getegid(config: &Config) -> (r: IdAction)
    ensures
        config@.root_id ==> r == IdAction::Answer(0),
        !config@.root_id ==> r == IdAction::Ask(Sys::Getegid),
{
    real_uid(config, Sys::Getegid)
}

/// The second version of the capability interface.
pub const LINUX_CAPABILITY_VERSION_2: u32 = 0x20071026;

/// The third version of the capability interface.
pub const LINUX_CAPABILITY_VERSION_3: u32 = 0x20080522;

/// Every capability of one set.
pub const CAP_FULL: u32 = 0xffffffff;

/// What a caller of `capget` asks for.
#[derive(Clone, Copy, PartialEq, Eq, Structural)]
pub struct CapHeader {
    pub version: u32,
    pub pid: i32,
}

/// One set of capabilities.
#[derive(Clone, Copy, PartialEq, Eq, Structural)]
pub struct CapData {
    pub effective: u32,
    pub permitted: u32,
    pub inheritable: u32,
}

/// What `capget` does.
pub enum CapAction {
    /// It writes these sets to the caller's memory and succeeds.
    Answer(Vec<CapData>),
    /// It asks the kernel.
    Ask(Call),
}

/// The number of sets that a version of the interface has.
pub open spec fn cap_sets(version: u32) -> int {
    if version == LINUX_CAPABILITY_VERSION_2 || version == LINUX_CAPABILITY_VERSION_3 {
        2
    } else {
        1
    }
}

/// The set that holds every capability.
pub open spec fn full_set() -> CapData {
    CapData { effective: CAP_FULL, permitted: CAP_FULL, inheritable: CAP_FULL }
}

/// `capget(hdr, data)`: under the fake identity every capability is there, in as many sets as the
/// version has; nothing is written where a pointer is missing.
pub fn capget(config: &Config, hdr: Option<CapHeader>, has_data: bool) -> (r: CapAction)
    ensures
        match r {
            CapAction::Answer(sets) => {
                &&& config@.root_id
                &&& sets@.len() == (if has_data && hdr is Some {
                    cap_sets(hdr->0.version)
                } else {
                    0
                })
                &&& forall|i: int| 0 <= i < sets@.len() ==> sets@[i] == full_set()
            },
            CapAction::Ask(call) => {
                &&& !config@.root_id
                &&& call@ == call_of(
                    Sys::Capget,
                    seq![ArgValue::Caller(0), ArgValue::Caller(1)],
                )
            },
        },
{
    if !config.root_id {
        return CapAction::Ask(call2(Sys::Capget, Arg::Caller(0), Arg::Caller(1)));
    }
    let full = CapData { effective: CAP_FULL, permitted: CAP_FULL, inheritable: CAP_FULL };
    let mut sets: Vec<CapData> = Vec::new();
    if let Some(h) = hdr {
        if has_data {
            sets.push(full);
            if h.version == LINUX_CAPABILITY_VERSION_2 || h.version == LINUX_CAPABILITY_VERSION_3 {
                sets.push(full);
            }
        }
    }
    CapAction::Answer(sets)
}

/// The size of a field of the kernel's description of itself.
pub const UTS_LEN: usize = 65;

/// The fields of the kernel's description of itself that can be replaced.
pub struct UtsFields {
    pub machine: Vec<u8>,
    pub release: Vec<u8>,
}

/// A field with a value written over its start and closed by a zero byte; the value is cut to fit.
pub open spec fn overlaid(field: Seq<u8>, value: Option<&[u8]>) -> Seq<u8> {
    match value {
        None => field,
        Some(v) => {
            let n = if v@.len() < UTS_LEN - 1 {
                v@.len() as int
            } else {
                UTS_LEN - 1
            };
            v@.take(n).push(0) + field.skip(n + 1)
        },
    }
}

fn overlay(field: &[u8], value: Option<&[u8]>) -> (r: Vec<u8>)
    requires
        field@.len() == UTS_LEN,
    ensures
        r@ == overlaid(field@, value),
        r@.len() == UTS_LEN,
{
    match value {
        None => vstd::slice::slice_to_vec(field),
        Some(v) => {
            let n: usize = if v.len() < UTS_LEN - 1 {
                v.len()
            } else {
                UTS_LEN - 1
            };
            let mut out = part(v, 0, n);
            out.push(0);
            append(&mut out, vstd::slice::slice_subrange(field, n + 1, field.len()));
            proof {
                assert(v@.subrange(0, n as int) =~= v@.take(n as int));
                assert(field@.subrange(n + 1, UTS_LEN as int) =~= field@.skip(n + 1));
            }
            out
        },
    }
}

/// `uname(buf)`: after the kernel has filled the fields in, the machine and the release are replaced by
/// what was asked for; where the kernel failed, nothing is touched.
pub fn uname(
    ret: i32,
    fields: UtsFields,
    machine: Option<&[u8]>,
    release: Option<&[u8]>,
) -> (r: UtsFields)
    requires
        fields.machine@.len() == UTS_LEN,
        fields.release@.len() == UTS_LEN,
    ensures
        ret == 0 ==> r.machine@ == overlaid(fields.machine@, machine) && r.release@ == overlaid(
            fields.release@,
            release,
        ),
        ret != 0 ==> r == fields,
        r.machine@.len() == UTS_LEN,
        r.release@.len() == UTS_LEN,
{
    if ret != 0 {
        return fields;
    }
    UtsFields {
        machine: overlay(fields.machine.as_slice(), machine),
        release: overlay(fields.release.as_slice(), release),
    }
}

/// How a call fails that is not let through.
#[derive(Clone, Copy, PartialEq, Eq, Structural)]
pub struct Refusal {
    pub errno: i32,
    pub result: i64,
}

/// The refusal of everything that the program may not do: not permitted.
pub open spec fn not_permitted() -> Refusal {
    Refusal { errno: EPERM, result: -1i64 }
}

fn eperm() -> (r: Refusal)
    ensures
        r == not_permitted(),
{
    Refusal { errno: EPERM, result: -1 }
}

/// `ptrace(request, pid, addr, data)`: refused, whatever the arguments.
pub fn ptrace() -> (r: Refusal)
    ensures
        r == not_permitted(),
{
    eperm()
}

/// `chroot(path)`: refused, whatever the arguments.
pub fn chroot() -> (r: Refusal)
    ensures
        r == not_permitted(),
{
    eperm()
}

/// `pivot_root(new, old)`: refused, whatever the arguments.
pub fn pivot_root() -> (r: Refusal)
    ensures
        r == not_permitted(),
{
    eperm()
}

/// `init_module(image, len, args)`: refused, whatever the arguments.
pub fn init_module() -> (r: Refusal)
    ensures
        r == not_permitted(),
{
    eperm()
}

/// `finit_module(fd, args, flags)`: refused, whatever the arguments.
pub fn finit_module() -> (r: Refusal)
    ensures
        r == not_permitted(),
{
    eperm()
}

/// `delete_module(name, flags)`: refused, whatever the arguments.
pub fn delete_module() -> (r: Refusal)
    ensures
        r == not_permitted(),
{
    eperm()
}

/// `reboot(magic, magic2, cmd, arg)`: refused, whatever the arguments.
pub fn reboot() -> (r: Refusal)
    ensures
        r == not_permitted(),
{
    eperm()
}

/// `swapon(path, flags)`: refused, whatever the arguments.
pub fn swapon() -> (r: Refusal)
    ensures
        r == not_permitted(),
{
    eperm()
}

/// `swapoff(path)`: refused, whatever the arguments.
pub fn swapoff() -> (r: Refusal)
    ensures
        r == not_permitted(),
{
    eperm()
}

/// `kexec_load(entry, count, segments, flags)`: refused, whatever the arguments.
pub fn kexec_load() -> (r: Refusal)
    ensures
        r == not_permitted(),
{
    eperm()
}

/// `iopl(level)`: refused, whatever the arguments.
pub fn iopl() -> (r: Refusal)
    ensures
        r == not_permitted(),
{
    eperm()
}

/// The execution domain flag that switches address space randomisation off.
pub const ADDR_NO_RANDOMIZE: usize = 0x00040000;

/// What `personality` does.
pub enum PersonaAction {
    Refuse(Refusal),
    Ask(Call),
}

/// `personality(persona)`: refused where it would switch address space randomisation off; all bits set
/// only asks for the current domain and goes through.
pub fn personality(persona: usize) -> (r: PersonaAction)
    ensures
        match r {
            PersonaAction::Refuse(refusal) => {
                &&& persona != usize::MAX
                &&& persona & ADDR_NO_RANDOMIZE == ADDR_NO_RANDOMIZE
                &&& refusal == not_permitted()
            },
            PersonaAction::Ask(call) => {
                &&& persona == usize::MAX || persona & ADDR_NO_RANDOMIZE != ADDR_NO_RANDOMIZE
                &&& call@ == call_of(Sys::Personality, seq![ArgValue::Caller(0)])
            },
        },
{
    if persona != usize::MAX && persona & ADDR_NO_RANDOMIZE == ADDR_NO_RANDOMIZE {
        PersonaAction::Refuse(eperm())
    } else {
        PersonaAction::Ask(call1(Sys::Personality, Arg::Caller(0)))
    }
}

/// A field of the kernel's description shows the value that was asked for, up to 64 bytes of it, and a zero
/// byte behind it; what lies further on stays, and without a value all of it does.
pub proof fn law_replaced_field(field: Seq<u8>, value: &[u8], k: int)
    requires
        field.len() == 65,
        0 <= k < 65,
    ensures
        overlaid(field, None) == field,
        overlaid(field, Some(value)).len() == 65,
        k < value@.len() && k < 64 ==> overlaid(field, Some(value))[k] == value@[k],
        k == value@.len() || (k == 64 && value@.len() > 64) ==> overlaid(field, Some(value))[k] == 0,
        k > value@.len() ==> overlaid(field, Some(value))[k] == field[k],
{
}

/// The second and the third version of the capability interface have two sets and every other has one, all
/// bits of a full set are on, and what may not be done fails with `EPERM`.
pub proof fn law_capabilities_and_refusals(version: u32)
    ensures
        cap_sets(version) == (if version == 0x20071026 || version == 0x20080522 {
            2int
        } else {
            1
        }),
        full_set().effective == u32::MAX && full_set().permitted == u32::MAX
            && full_set().inheritable == u32::MAX,
        not_permitted().errno == 1,
        not_permitted().result == -1,
{
}

} // verus!
