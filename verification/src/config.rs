//! What the environment tells the hooks: the root filesystem, the bind mounts and the fake identity.
use vstd::prelude::*;

use crate::bytes::{find_first, part, pieces, trimmed};
#[allow(unused_imports)]
use crate::bytes::{contents, first_of, lemma_first_of, slice_opt, split, trim_end};

verus! {

/// The settings under which every hook works.
pub struct Config {
    /// The host path of the root filesystem, without slashes at its end; empty when there is none.
    pub rootfs: Vec<u8>,
    /// The bind mounts, host path first, in the order in which they are tried.
    pub binds: Vec<(Vec<u8>, Vec<u8>)>,
    /// Whether the program is to see itself as root.
    pub root_id: bool,
}

/// The settings as mathematical values.
pub struct Settings {
    pub rootfs: Seq<u8>,
    pub binds: Seq<(Seq<u8>, Seq<u8>)>,
    pub root_id: bool,
}

/// The contents of a list of bind mounts.
pub open spec fn bind_contents(binds: Seq<(Vec<u8>, Vec<u8>)>) -> Seq<(Seq<u8>, Seq<u8>)> {
    binds.map_values(|b: (Vec<u8>, Vec<u8>)| (b.0@, b.1@))
}

impl View for Config {
    type V = Settings;

    open spec fn view(&self) -> Settings {
        Settings {
            rootfs: self.rootfs@,
            binds: bind_contents(self.binds@),
            root_id: self.root_id,
        }
    }
}

/// The bind mount that one `host:guest` entry describes; an entry without a colon describes none.
pub open spec fn parse_bind(entry: Seq<u8>) -> Option<(Seq<u8>, Seq<u8>)> {
    let colon = first_of(entry, 0, seq![0x3a]);
    if colon < entry.len() {
        Some((entry.take(colon), entry.skip(colon + 1)))
    } else {
        None
    }
}

/// The bind mounts that a list of entries describes.
pub open spec fn parse_entries(entries: Seq<Seq<u8>>) -> Seq<(Seq<u8>, Seq<u8>)>
    decreases entries.len(),
{
    if entries.len() == 0 {
        Seq::empty()
    } else {
        let rest = parse_entries(entries.drop_last());
        match parse_bind(entries.last()) {
            Some(b) => rest.push(b),
            None => rest,
        }
    }
}

/// The bind mounts that the value of `LITTLE_BINDS` describes, entries being parted by semicolons.
pub open spec fn parse_binds(value: Seq<u8>) -> Seq<(Seq<u8>, Seq<u8>)> {
    parse_entries(split(value, 0x3b))
}

/// The root filesystem that the value of `LITTLE_ROOTFS` names.
pub open spec fn parse_rootfs(value: Option<Seq<u8>>) -> Seq<u8> {
    match value {
        Some(v) => trim_end(v, 0x2f),
        None => Seq::empty(),
    }
}

/// The bind mounts that `LITTLE_BINDS` asks for, given its value where it is set.
pub fn binds(value: Option<&[u8]>) -> (r: Vec<(Vec<u8>, Vec<u8>)>)
    ensures
        bind_contents(r@) == (match value {
            Some(v) => parse_binds(v@),
            None => Seq::empty(),
        }),
{
    let mut out: Vec<(Vec<u8>, Vec<u8>)> = Vec::new();
    let list = match value {
        None => {
            proof {
                assert(bind_contents(out@) =~= Seq::empty());
            }
            return out;
        },
        Some(v) => pieces(v, 0x3b),
    };
    let ghost all = contents(list@);
    let mut i: usize = 0;
    proof {
        assert(bind_contents(out@) =~= parse_entries(all.take(0)));
    }
    while i < list.len()
        invariant
            i <= list@.len(),
            all == contents(list@),
            bind_contents(out@) == parse_entries(all.take(i as int)),
        decreases list.len() - i,
    {
        let entry = &list[i];
        let stop: [u8; 1] = [0x3a];
        let colon: usize = find_first(entry.as_slice(), 0, stop.as_slice());
        proof {
            assert(stop@ =~= seq![0x3au8]);
            assert(all.take(i + 1).drop_last() =~= all.take(i as int));
            assert(all.take(i + 1).last() == entry@);
        }
        if colon < entry.len() {
            let host = part(entry.as_slice(), 0, colon);
            let guest = part(entry.as_slice(), colon + 1, entry.len());
            proof {
                assert(host@ =~= entry@.take(colon as int));
                assert(guest@ =~= entry@.skip(colon + 1));
            }
            out.push((host, guest));
            proof {
                assert(bind_contents(out@) =~= parse_entries(all.take(i + 1)));
            }
        }
        i += 1;
    }
    proof {
        assert(all.take(list@.len() as int) =~= all);
    }
    out
}

/// The root filesystem that `LITTLE_ROOTFS` names, given its value where it is set.
pub fn rootfs_bytes(value: Option<&[u8]>) -> (r: Vec<u8>)
    ensures
        r@ == parse_rootfs(slice_opt(value)),
{
    match value {
        Some(v) => trimmed(v, 0x2f),
        None => Vec::new(),
    }
}

/// Whether `LITTLE_ROOT_ID` asks for the fake root identity: being set is enough.
pub fn is_root_id(value: Option<&[u8]>) -> (r: bool)
    ensures
        r == (value is Some),
{
    value.is_some()
}

/// Whether `LITTLE_VERBOSE` asks for debug output: being set is enough.
pub fn is_verbose(value: Option<&[u8]>) -> (r: bool)
    ensures
        r == (value is Some),
{
    value.is_some()
}

impl Config {
    /// The settings that the values of `LITTLE_ROOTFS`, `LITTLE_BINDS` and `LITTLE_ROOT_ID` make.
    pub fn from_env(rootfs: Option<&[u8]>, bind_list: Option<&[u8]>, root_id: Option<&[u8]>) -> (r:
        Config)
        ensures
            r@.rootfs == parse_rootfs(slice_opt(rootfs)),
            r@.binds == (match bind_list {
                Some(v) => parse_binds(v@),
                None => Seq::empty(),
            }),
            r@.root_id == (root_id is Some),
            r.wf(),
    {
        let r = Config {
            rootfs: rootfs_bytes(rootfs),
            binds: binds(bind_list),
            root_id: is_root_id(root_id),
        };
        proof {
            if let Some(v) = rootfs {
                lemma_trim_end(v@, 0x2f);
            }
        }
        r
    }

    /// Settings made by `from_env`: the root filesystem has no slash at its end.
    pub open spec fn wf(&self) -> bool {
        self.rootfs@.len() > 0 ==> self.rootfs@.last() != 0x2f
    }
}

/// Trimming leaves a prefix that does not end in the trimmed byte.
pub proof fn lemma_trim_end(s: Seq<u8>, b: u8)
    ensures
        trim_end(s, b).is_prefix_of(s),
        trim_end(s, b).len() > 0 ==> trim_end(s, b).last() != b,
    decreases s.len(),
{
    if s.len() > 0 && s.last() == b {
        lemma_trim_end(s.drop_last(), b);
        let t = trim_end(s.drop_last(), b);
        assert(s.subrange(0, t.len() as int) =~= s.drop_last().subrange(0, t.len() as int));
    }
}

/// `host:guest` is the bind mount of the two, whatever colons the guest path holds; an entry without a
/// colon is none.
pub proof fn law_bind_entry(host: Seq<u8>, guest: Seq<u8>)
    requires
        !host.contains(0x3a),
    ensures
        parse_bind(host + seq![0x3a] + guest) == Some((host, guest)),
        parse_bind(host) is None,
{
    let entry = host + seq![0x3au8] + guest;
    let stop = seq![0x3au8];
    let n = host.len() as int;
    assert(stop[0] == 0x3a);
    assert forall|i: int| 0 <= i < n implies !stop.contains(#[trigger] entry[i]) by {
        assert(entry[i] == host[i]);
    }
    assert forall|i: int| 0 <= i < n implies !stop.contains(#[trigger] host[i]) by {}
    assert(entry[n] == 0x3a);
    crate::bytes::lemma_first_of_is(entry, 0, stop, n);
    crate::bytes::lemma_first_of_is(host, 0, stop, n);
    assert(entry.take(n) =~= host);
    assert(entry.skip(n + 1) =~= guest);
}

/// Two lists of bind mounts with a semicolon between them are the bind mounts of the first and then those
/// of the second; one entry without a semicolon gives the bind mount that it describes, or none.
pub proof fn law_bind_lists(x: Seq<u8>, y: Seq<u8>)
    ensures
        parse_binds(x + seq![0x3b] + y) == parse_binds(x) + parse_binds(y),
        !x.contains(0x3b) ==> parse_binds(x) == (match parse_bind(x) {
            Some(b) => seq![b],
            None => Seq::empty(),
        }),
{
    crate::bytes::law_split(x, y, 0x3b);
    lemma_parse_entries(split(x, 0x3b), split(y, 0x3b));
    if !x.contains(0x3b) {
        assert(seq![x].drop_last() =~= Seq::<Seq<u8>>::empty());
        assert(parse_entries(seq![x].drop_last()) =~= Seq::empty());
        assert(seq![x].last() == x);
        assert(parse_binds(x) =~= (match parse_bind(x) {
            Some(b) => seq![b],
            None => Seq::empty(),
        }));
    }
}

proof fn lemma_parse_entries(x: Seq<Seq<u8>>, y: Seq<Seq<u8>>)
    ensures
        parse_entries(x + y) == parse_entries(x) + parse_entries(y),
    decreases y.len(),
{
    if y.len() == 0 {
        assert(x + y =~= x);
        assert(parse_entries(x) + parse_entries(y) =~= parse_entries(x));
    } else {
        assert((x + y).drop_last() =~= x + y.drop_last());
        assert((x + y).last() == y.last());
        lemma_parse_entries(x, y.drop_last());
        assert(parse_entries(x + y) =~= parse_entries(x) + parse_entries(y));
    }
}

/// The root filesystem is the path that was named without the slashes at its end, and none where no path
/// was named.
pub proof fn law_rootfs_without_slashes(dir: Seq<u8>, n: nat)
    requires
        dir.len() == 0 || dir.last() != 0x2f,
    ensures
        parse_rootfs(Some(dir + Seq::new(n, |i: int| 0x2fu8))) == dir,
        parse_rootfs(None) == Seq::<u8>::empty(),
{
    crate::bytes::law_trim_end(dir, 0x2f, n);
}

} // verus!
