//! Where a path that the program names lies on the host, and back.
use vstd::prelude::*;

use crate::bytes::{join, part, starts_with};
#[allow(unused_imports)]
use crate::bytes::{contents_opt, lit, slice_opt};
use crate::config::Config;
#[allow(unused_imports)]
use crate::config::{bind_contents, Settings};

verus! {

/// Paths of this many bytes or more do not fit the kernel's path buffer.
pub const PATH_LIMIT: usize = 4096;

/// Whether a path is the given one or lies below it.
pub open spec fn covers(dir: Seq<u8>, path: Seq<u8>) -> bool {
    dir.is_prefix_of(path) && (path.len() == dir.len() || path[dir.len() as int] == 0x2f)
}

/// Whether a path belongs to the host's kernel file systems.
pub open spec fn passes_through(path: Seq<u8>) -> bool {
    covers(lit("/proc"), path) || covers(lit("/sys"), path) || covers(lit("/dev"), path)
}

/// The position of the first bind mount from `from` on that covers a path, or their number.
pub open spec fn first_bind(binds: Seq<(Seq<u8>, Seq<u8>)>, from: int, path: Seq<u8>) -> int
    decreases binds.len() - from,
{
    if from >= binds.len() {
        binds.len() as int
    } else if covers(binds[from].1, path) {
        from
    } else {
        first_bind(binds, from + 1, path)
    }
}

/// Whether a path is one that translation moves: there is a root filesystem, and the path is absolute,
/// not yet inside it, and not the kernel's.
pub open spec fn is_moved(s: Settings, path: Seq<u8>) -> bool {
    &&& path.len() > 0
    &&& path[0] == 0x2f
    &&& !(s.rootfs.len() == 0 || covers(s.rootfs, path))
    &&& !passes_through(path)
}

/// The place of an absolute path: below the host side of the first bind mount that covers it, else
/// below the root filesystem.
pub open spec fn relocated(s: Settings, path: Seq<u8>) -> Seq<u8> {
    let b = first_bind(s.binds, 0, path);
    if 0 <= b < s.binds.len() {
        s.binds[b].0 + path.skip(s.binds[b].1.len() as int)
    } else {
        s.rootfs + path
    }
}

/// The host path of a path that the program names; a result that would not fit leaves it as it is.
pub open spec fn translated(s: Settings, path: Seq<u8>) -> Seq<u8> {
    if is_moved(s, path) && relocated(s, path).len() < PATH_LIMIT {
        relocated(s, path)
    } else {
        path
    }
}

/// The host path of a path argument, the null pointer staying the null pointer.
pub open spec fn translated_arg(s: Settings, path: Option<Seq<u8>>) -> Option<Seq<u8>> {
    match path {
        Some(p) => Some(translated(s, p)),
        None => None,
    }
}

/// The path that a link target reads as inside the root filesystem: a target that begins with the bytes of
/// the root filesystem's path loses them, whatever follows, and nothing left over reads as `/`.
pub open spec fn stripped(rootfs: Seq<u8>, raw: Seq<u8>) -> Seq<u8> {
    if rootfs.len() > 0 && rootfs.is_prefix_of(raw) {
        if raw.len() == rootfs.len() {
            lit("/")
        } else {
            raw.skip(rootfs.len() as int)
        }
    } else {
        raw
    }
}

/// `first_bind` is in range, and the bind mount that it gives is the first to cover the path.
pub proof fn lemma_first_bind(binds: Seq<(Seq<u8>, Seq<u8>)>, from: int, path: Seq<u8>)
    requires
        0 <= from <= binds.len(),
    ensures
        from <= first_bind(binds, from, path) <= binds.len(),
        first_bind(binds, from, path) < binds.len() ==> covers(
            binds[first_bind(binds, from, path)].1,
            path,
        ),
        forall|i: int|
            from <= i < first_bind(binds, from, path) ==> !covers((#[trigger] binds[i]).1, path),
    decreases binds.len() - from,
{
    if from < binds.len() && !covers(binds[from].1, path) {
        lemma_first_bind(binds, from + 1, path);
    }
}

/// Whether a path is the given one or lies below it.
pub fn is_covered(dir: &[u8], path: &[u8]) -> (r: bool)
    ensures
        r == covers(dir@, path@),
{
    starts_with(path, dir) && (path.len() == dir.len() || path[dir.len()] == 0x2f)
}

/// Whether a path is one that translation moves.
pub fn moves(config: &Config, path: &[u8]) -> (r: bool)
    ensures
        r == is_moved(config@, path@),
{
    path.len() > 0 && path[0] == 0x2f && config.rootfs.len() > 0 && !is_covered(
        config.rootfs.as_slice(),
        path,
    ) && !is_covered("/proc".as_bytes(), path) && !is_covered("/sys".as_bytes(), path)
        && !is_covered("/dev".as_bytes(), path)
}

/// The host path of a path that the program names.
pub fn translate(config: &Config, path: &[u8]) -> (r: Vec<u8>)
    ensures
        r@ == translated(config@, path@),
{
    let unchanged = vstd::slice::slice_to_vec(path);
    if !moves(config, path) {
        return unchanged;
    }
    let ghost binds = config@.binds;
    let mut i: usize = 0;
    while i < config.binds.len()
        invariant
            i <= config.binds@.len(),
            binds == bind_contents(config.binds@),
            binds == config@.binds,
            is_moved(config@, path@),
            unchanged@ == path@,
            first_bind(binds, 0, path@) == first_bind(binds, i as int, path@),
        decreases config.binds.len() - i,
    {
        let host = &config.binds[i].0;
        let guest = &config.binds[i].1;
        let n: usize = guest.len();
        proof {
            assert(binds[i as int] == (host@, guest@));
        }
        if is_covered(guest.as_slice(), path) {
            let tail = part(path, n, path.len());
            proof {
                assert(covers(binds[i as int].1, path@));
                assert(tail@ =~= path@.skip(n as int));
            }
            if tail.len() >= PATH_LIMIT || host.len() >= PATH_LIMIT - tail.len() {
                return unchanged;
            }
            return join(host.as_slice(), tail.as_slice());
        }
        i += 1;
    }
    if path.len() >= PATH_LIMIT || config.rootfs.len() >= PATH_LIMIT - path.len() {
        return unchanged;
    }
    join(config.rootfs.as_slice(), path)
}

/// The host path of a path argument, the null pointer staying the null pointer.
pub fn translate_arg(config: &Config, path: Option<&[u8]>) -> (r: Option<Vec<u8>>)
    ensures
        contents_opt(r) == translated_arg(config@, slice_opt(path)),
{
    match path {
        Some(p) => Some(translate(config, p)),
        None => None,
    }
}

/// The host path of a path argument of a call that also takes a directory: only an absolute path is
/// handed to translation, which is all that translation ever moves.
pub fn match_non_abs(config: &Config, path: Option<&[u8]>) -> (r: Option<Vec<u8>>)
    ensures
        contents_opt(r) == translated_arg(config@, slice_opt(path)),
{
    match path {
        Some(p) => if p.len() > 0 && p[0] == 0x2f {
            Some(translate(config, p))
        } else {
            Some(vstd::slice::slice_to_vec(p))
        },
        None => None,
    }
}

/// The host path of the first of two path arguments, kept apart from that of the second.
pub fn save_path(config: &Config, path: Option<&[u8]>) -> (r: Option<Vec<u8>>)
    ensures
        contents_opt(r) == translated_arg(config@, slice_opt(path)),
{
    translate_arg(config, path)
}

/// The path that a link target reads as inside the root filesystem.
pub fn strip_rootfs(config: &Config, raw: &[u8]) -> (r: Vec<u8>)
    ensures
        r@ == stripped(config@.rootfs, raw@),
{
    let n: usize = config.rootfs.len();
    if n > 0 && starts_with(raw, config.rootfs.as_slice()) {
        if raw.len() == n {
            vstd::slice::slice_to_vec("/".as_bytes())
        } else {
            let rest = part(raw, n, raw.len());
            proof {
                assert(rest@ =~= raw@.skip(n as int));
            }
            rest
        }
    } else {
        vstd::slice::slice_to_vec(raw)
    }
}

// ---- What holds of translation as a whole ----

/// Relative paths, the empty path and the kernel's file systems are left alone.
pub proof fn law_untouched_paths(s: Settings, path: Seq<u8>)
    requires
        path.len() == 0 || path[0] != 0x2f || passes_through(path),
    ensures
        translated(s, path) == path,
{
}

/// Without a root filesystem nothing is translated, whatever the bind mounts.
pub proof fn law_no_rootfs(s: Settings, path: Seq<u8>)
    requires
        s.rootfs.len() == 0,
    ensures
        translated(s, path) == path,
{
}

/// An absolute path that is not the kernel's and that no bind mount covers is a path of the root
/// filesystem once it is translated: the root filesystem itself, or one that lies below it.
pub proof fn law_confined(s: Settings, path: Seq<u8>)
    requires
        s.rootfs.len() > 0,
        path.len() > 0,
        path[0] == 0x2f,
        !passes_through(path),
        forall|i: int| 0 <= i < s.binds.len() ==> !covers((#[trigger] s.binds[i]).1, path),
        s.rootfs.len() + path.len() < PATH_LIMIT,
    ensures
        covers(s.rootfs, translated(s, path)),
{
    lemma_first_bind(s.binds, 0, path);
    if is_moved(s, path) {
        lemma_covers_below(s.rootfs, path);
    }
}

/// What is put below a directory is covered by it.
proof fn lemma_covers_below(dir: Seq<u8>, below: Seq<u8>)
    requires
        below.len() == 0 || below[0] == 0x2f,
    ensures
        covers(dir, dir + below),
{
    assert((dir + below).subrange(0, dir.len() as int) =~= dir);
}

/// What translation put below the root filesystem is not moved a second time.
pub proof fn law_translate_twice(s: Settings, path: Seq<u8>)
    requires
        forall|i: int| 0 <= i < s.binds.len() ==> !covers((#[trigger] s.binds[i]).1, path),
    ensures
        translated(s, translated(s, path)) == translated(s, path),
{
    lemma_first_bind(s.binds, 0, path);
    if is_moved(s, path) && relocated(s, path).len() < PATH_LIMIT {
        lemma_covers_below(s.rootfs, path);
    }
}

/// A path below the guest side of a bind mount that no earlier one covers reads and writes below its
/// host side.
pub proof fn law_bind_redirects(s: Settings, i: int, below: Seq<u8>)
    requires
        0 <= i < s.binds.len(),
        below.len() == 0 || below[0] == 0x2f,
        is_moved(s, s.binds[i].1 + below),
        forall|j: int|
            0 <= j < i ==> !covers((#[trigger] s.binds[j]).1, s.binds[i].1 + below),
        s.binds[i].0.len() + below.len() < PATH_LIMIT,
    ensures
        translated(s, s.binds[i].1 + below) == s.binds[i].0 + below,
{
    let path = s.binds[i].1 + below;
    let guest = s.binds[i].1;
    lemma_first_bind(s.binds, 0, path);
    assert(path.subrange(0, guest.len() as int) =~= guest);
    assert(covers(s.binds[i].1, path));
    let b = first_bind(s.binds, 0, path);
    assert(b <= i);
    if b < i {
        assert(!covers(s.binds[b].1, path));
    }
    assert(path.skip(guest.len() as int) =~= below);
}

/// Reading back a link target undoes the move below the root filesystem.
pub proof fn law_strip_undoes_translate(s: Settings, path: Seq<u8>)
    requires
        is_moved(s, path),
        forall|i: int| 0 <= i < s.binds.len() ==> !covers((#[trigger] s.binds[i]).1, path),
        s.rootfs.len() + path.len() < PATH_LIMIT,
    ensures
        stripped(s.rootfs, translated(s, path)) == path,
{
    lemma_first_bind(s.binds, 0, path);
    let t = s.rootfs + path;
    lemma_covers_below(s.rootfs, path);
    assert(t.skip(s.rootfs.len() as int) =~= path);
}

/// A translated path fits the kernel's buffer unless it is the path that was given.
pub proof fn law_translated_fits(s: Settings, path: Seq<u8>)
    ensures
        translated(s, path) == path || translated(s, path).len() < PATH_LIMIT,
{
}

/// Translation brings in no zero byte: a C string stays a C string.
pub proof fn law_no_zero_byte(s: Settings, path: Seq<u8>)
    requires
        !path.contains(0),
        !s.rootfs.contains(0),
        forall|i: int| 0 <= i < s.binds.len() ==> !(#[trigger] s.binds[i]).0.contains(0),
    ensures
        !translated(s, path).contains(0),
{
    let b = first_bind(s.binds, 0, path);
    lemma_first_bind(s.binds, 0, path);
    let t = relocated(s, path);
    if is_moved(s, path) && t.contains(0) {
        let k = choose|k: int| 0 <= k < t.len() && t[k] == 0;
        if b < s.binds.len() {
            let host = s.binds[b].0;
            let n = s.binds[b].1.len() as int;
            if k < host.len() {
                assert(host[k] == 0);
            } else {
                assert(path[n + k - host.len()] == 0);
            }
        } else if k < s.rootfs.len() {
            assert(s.rootfs[k] == 0);
        } else {
            assert(path[k - s.rootfs.len()] == 0);
        }
    }
}

/// A directory covers itself and what continues it behind a slash, and nothing else.
pub proof fn law_covers(dir: Seq<u8>, path: Seq<u8>)
    ensures
        covers(dir, path) <==> path == dir || (dir + seq![0x2f]).is_prefix_of(path),
{
    let entry = dir + seq![0x2fu8];
    if covers(dir, path) && path != dir {
        if path.len() == dir.len() {
            assert(path =~= path.subrange(0, dir.len() as int));
        }
        assert(path.subrange(0, entry.len() as int) =~= entry) by {
            assert forall|k: int| 0 <= k < entry.len() implies path[k] == entry[k] by {
                if k < dir.len() {
                    assert(path.subrange(0, dir.len() as int)[k] == dir[k]);
                }
            }
        }
    }
    if entry.is_prefix_of(path) {
        assert(path.subrange(0, entry.len() as int) == entry);
        assert(path[dir.len() as int] == entry[dir.len() as int]);
        assert(path.subrange(0, dir.len() as int) =~= dir) by {
            assert forall|k: int| 0 <= k < dir.len() implies path[k] == dir[k] by {
                assert(path.subrange(0, entry.len() as int)[k] == entry[k]);
            }
        }
    }
    if path == dir {
        assert(path.subrange(0, dir.len() as int) =~= dir);
    }
}

/// Whether a path stays where it is whatever the bind mounts: it is no absolute path, there is no root
/// filesystem, it is the root filesystem or lies below it, or it is `/proc`, `/sys` or `/dev` or lies
/// below one of them.
pub open spec fn is_left_alone(rootfs: Seq<u8>, path: Seq<u8>) -> bool {
    ||| path.len() == 0
    ||| path[0] != 0x2f
    ||| rootfs.len() == 0
    ||| path == rootfs
    ||| (rootfs + seq![0x2f]).is_prefix_of(path)
    ||| path == lit("/proc")
    ||| (lit("/proc") + seq![0x2f]).is_prefix_of(path)
    ||| path == lit("/sys")
    ||| (lit("/sys") + seq![0x2f]).is_prefix_of(path)
    ||| path == lit("/dev")
    ||| (lit("/dev") + seq![0x2f]).is_prefix_of(path)
}

/// The paths that are left alone are those that translation does not move, and translation gives them
/// back byte for byte.
pub proof fn law_left_alone(s: Settings, path: Seq<u8>)
    ensures
        is_left_alone(s.rootfs, path) <==> !is_moved(s, path),
        is_left_alone(s.rootfs, path) ==> translated(s, path) == path,
        translated_arg(s, Some(path)) == Some(translated(s, path)),
        translated_arg(s, None) == None::<Seq<u8>>,
{
    law_covers(s.rootfs, path);
    law_covers(lit("/proc"), path);
    law_covers(lit("/sys"), path);
    law_covers(lit("/dev"), path);
}

/// A path that is not left alone, and that is no bind mount's guest path nor lies below one, gets the root
/// filesystem in front of it, as long as the result has fewer than 4096 bytes; else it stays.
pub proof fn law_goes_below_rootfs(s: Settings, path: Seq<u8>)
    requires
        !is_left_alone(s.rootfs, path),
        forall|i: int|
            0 <= i < s.binds.len() ==> path != (#[trigger] s.binds[i]).1 && !(s.binds[i].1
                + seq![0x2f]).is_prefix_of(path),
    ensures
        s.rootfs.len() + path.len() < 4096 ==> translated(s, path) == s.rootfs + path,
        s.rootfs.len() + path.len() >= 4096 ==> translated(s, path) == path,
{
    law_left_alone(s, path);
    assert forall|i: int| 0 <= i < s.binds.len() implies !covers((#[trigger] s.binds[i]).1, path) by {
        law_covers(s.binds[i].1, path);
    }
    lemma_first_bind(s.binds, 0, path);
}

/// A path that is not left alone, and that the first of the bind mounts to do so covers with its guest
/// path, has the guest path replaced by the host path, as long as the result has fewer than 4096 bytes;
/// else it stays.
pub proof fn law_goes_below_bind(s: Settings, i: int, below: Seq<u8>)
    requires
        0 <= i < s.binds.len(),
        below.len() == 0 || below[0] == 0x2f,
        !is_left_alone(s.rootfs, s.binds[i].1 + below),
        forall|j: int|
            0 <= j < i ==> s.binds[i].1 + below != (#[trigger] s.binds[j]).1 && !(s.binds[j].1
                + seq![0x2f]).is_prefix_of(s.binds[i].1 + below),
    ensures
        s.binds[i].0.len() + below.len() < 4096 ==> translated(s, s.binds[i].1 + below)
            == s.binds[i].0 + below,
        s.binds[i].0.len() + below.len() >= 4096 ==> translated(s, s.binds[i].1 + below)
            == s.binds[i].1 + below,
{
    let path = s.binds[i].1 + below;
    law_left_alone(s, path);
    assert forall|j: int| 0 <= j < i implies !covers((#[trigger] s.binds[j]).1, path) by {
        law_covers(s.binds[j].1, path);
    }
    lemma_covers_below(s.binds[i].1, below);
    lemma_first_bind(s.binds, 0, path);
    assert(path.skip(s.binds[i].1.len() as int) =~= below);
    let b = first_bind(s.binds, 0, path);
    if b != i {
        assert(!covers(s.binds[i].1, path) || !covers(s.binds[b].1, path));
    }
}

/// A link target that does not begin with the bytes of the root filesystem's path is read back byte for
/// byte, as is every target where there is no root filesystem; one that does loses exactly these bytes,
/// and the root filesystem itself reads as `/`.
pub proof fn law_link_targets(rootfs: Seq<u8>, raw: Seq<u8>)
    ensures
        !rootfs.is_prefix_of(raw) ==> stripped(rootfs, raw) == raw,
        rootfs.len() > 0 && raw.len() > 0 && rootfs[0] != raw[0] ==> stripped(rootfs, raw) == raw,
        stripped(Seq::empty(), raw) == raw,
        rootfs.len() > 0 && raw.len() > 0 ==> stripped(rootfs, rootfs + raw) == raw,
        rootfs.len() > 0 ==> stripped(rootfs, rootfs) == seq![0x2fu8],
{
    if rootfs.len() > 0 && raw.len() > 0 && rootfs[0] != raw[0] && rootfs.is_prefix_of(raw) {
        assert(raw.subrange(0, rootfs.len() as int)[0] == rootfs[0]);
    }
    let t = rootfs + raw;
    assert(t.subrange(0, rootfs.len() as int) =~= rootfs);
    assert(t.skip(rootfs.len() as int) =~= raw);
    assert(rootfs.subrange(0, rootfs.len() as int) =~= rootfs);
    reveal_strlit("/");
    vstd::string::is_ascii_spec_bytes("/");
    assert(lit("/") =~= seq![0x2fu8]);
}

} // verus!
