//! What the runner puts into the environment is what the hooks read out of it.
use vstd::prelude::*;
#[allow(unused_imports)]
use vstd::utf8::{encode_scalar, encode_utf8};

#[allow(unused_imports)]
use crate::bytes::{first_of, lemma_first_of_is, split, trim_end};
#[allow(unused_imports)]
use crate::cli::{bind_of, ArgsValue};
#[allow(unused_imports)]
use crate::config::{parse_bind, parse_binds, parse_entries, parse_rootfs, Settings};
#[allow(unused_imports)]
use crate::launch::{base_env, bind_value, binds_env, command_env, root_env, verbose_env, when_some};
#[allow(unused_imports)]
use crate::text::{char_at_or_end, joined, lemma_char_at_or_end};

verus! {

/// The value of a variable among those that are set, the last one counting.
pub open spec fn value_of(env: Seq<(Seq<char>, Seq<char>)>, name: Seq<char>) -> Option<Seq<char>>
    decreases env.len(),
{
    if env.len() == 0 {
        None
    } else if env.last().0 == name {
        Some(env.last().1)
    } else {
        value_of(env.drop_last(), name)
    }
}

/// The bytes of a text that may be absent.
pub open spec fn encoded_opt(s: Option<Seq<char>>) -> Option<Seq<u8>> {
    match s {
        Some(v) => Some(encode_utf8(v)),
        None => None,
    }
}

/// The settings that the hooks read out of a list of variables.
pub open spec fn settings_in(env: Seq<(Seq<char>, Seq<char>)>) -> Settings {
    Settings {
        rootfs: parse_rootfs(encoded_opt(value_of(env, "LITTLE_ROOTFS"@))),
        binds: match value_of(env, "LITTLE_BINDS"@) {
            Some(v) => parse_binds(encode_utf8(v)),
            None => Seq::empty(),
        },
        root_id: value_of(env, "LITTLE_ROOT_ID"@) is Some,
    }
}

/// The bytes of a list of bind mounts.
pub open spec fn encoded_binds(binds: Seq<(Seq<char>, Seq<char>)>) -> Seq<(Seq<u8>, Seq<u8>)> {
    binds.map_values(|b: (Seq<char>, Seq<char>)| (encode_utf8(b.0), encode_utf8(b.1)))
}

/// A bind mount that the entry format can carry: no semicolon in it, and no colon in the host path.
pub open spec fn is_plain_bind(b: (Seq<char>, Seq<char>)) -> bool {
    !b.0.contains(':') && !b.0.contains(';') && !b.1.contains(';')
}

/// The bind mounts of the command line are the bind mounts of the hooks, in the same order, unless a
/// path holds a semicolon, which parts the entries, or a host path holds a colon.
pub proof fn law_binds_round_trip(binds: Seq<(Seq<char>, Seq<char>)>)
    requires
        binds.len() > 0,
        forall|i: int| 0 <= i < binds.len() ==> is_plain_bind(#[trigger] binds[i]),
    ensures
        parse_binds(encode_utf8(bind_value(binds))) == encoded_binds(binds),
{
    let entries = binds.map_values(|b: (Seq<char>, Seq<char>)| b.0 + ":"@ + b.1);
    reveal_strlit(":");
    reveal_strlit(";");
    assert forall|i: int| 0 <= i < entries.len() implies !(#[trigger] entries[i]).contains(';') by {
        assert(is_plain_bind(binds[i]));
        let e = binds[i].0 + ":"@ + binds[i].1;
        if e.contains(';') {
            let k = choose|k: int| 0 <= k < e.len() && e[k] == ';';
            if k < binds[i].0.len() {
                assert(binds[i].0[k] == ';');
            } else if k > binds[i].0.len() {
                assert(binds[i].1[k - binds[i].0.len() - 1] == ';');
            }
        }
    }
    lemma_split_joined(entries);
    let raw = entries.map_values(|e: Seq<char>| encode_utf8(e));
    assert forall|i: int| 0 <= i < raw.len() implies #[trigger] parse_bind(raw[i]) == Some(
        encoded_binds(binds)[i],
    ) by {
        assert(is_plain_bind(binds[i]));
        lemma_parse_bind(binds[i].0, binds[i].1);
    }
    lemma_parse_entries(raw, encoded_binds(binds));
}

/// The host path of a bind mount from the command line has no colon.
pub proof fn law_bind_host_has_no_colon(value: Seq<char>)
    ensures
        !bind_of(value).0.contains(':'),
{
    lemma_char_at_or_end(value, 0, ':');
    let colon = char_at_or_end(value, 0, ':');
    let host = bind_of(value).0;
    if host.contains(':') {
        let k = choose|k: int| 0 <= k < host.len() && host[k] == ':';
        assert(value[k] == ':');
    }
}

/// The hooks work under the settings that the command line asked for: the root filesystem, the bind
/// mounts and the fake identity. The emulator, the kernel release and the request for debug output are
/// handed over as they were given.
pub proof fn law_settings_reach_hooks(a: ArgsValue, preload: Seq<char>, host: Option<Seq<char>>)
    requires
        forall|i: int| 0 <= i < a.binds.len() ==> is_plain_bind(#[trigger] a.binds[i]),
    ensures
        settings_in(command_env(a, preload, host)) == (Settings {
            rootfs: trim_end(encode_utf8(a.rootfs), 0x2f),
            binds: encoded_binds(a.binds),
            root_id: a.fake_root,
        }),
        value_of(command_env(a, preload, host), "LITTLE_QEMU"@) == a.qemu,
        value_of(command_env(a, preload, host), "LITTLE_KERNEL_RELEASE"@) == a.kernel_release,
        value_of(command_env(a, preload, host), "LITTLE_VERBOSE"@) is Some == a.verbose,
        value_of(command_env(a, preload, host), "LD_PRELOAD"@) == Some(preload),
{
    let env = command_env(a, preload, host);
    lemma_names(a, preload, host, "LITTLE_ROOTFS"@);
    lemma_names(a, preload, host, "LITTLE_BINDS"@);
    lemma_names(a, preload, host, "LITTLE_ROOT_ID"@);
    lemma_names(a, preload, host, "LITTLE_QEMU"@);
    lemma_names(a, preload, host, "LITTLE_KERNEL_RELEASE"@);
    lemma_names(a, preload, host, "LITTLE_VERBOSE"@);
    lemma_names(a, preload, host, "LD_PRELOAD"@);
    lemma_distinct();
    if a.binds.len() > 0 {
        law_binds_round_trip(a.binds);
    } else {
        assert(encoded_binds(a.binds) =~= Seq::empty());
    }
}

/// The names that the hooks look up differ from each other and from the rest.
proof fn lemma_distinct()
    ensures
        distinct_names(
            seq![
                "PATH"@,
                "LD_LIBRARY_PATH"@,
                "TERM"@,
                "LITTLE_ROOTFS"@,
                "LD_PRELOAD"@,
                "HOME"@,
                "LITTLE_ROOT_ID"@,
                "LITTLE_BINDS"@,
                "LITTLE_KERNEL_RELEASE"@,
                "LITTLE_QEMU"@,
                "LITTLE_VERBOSE"@,
            ],
        ),
{
    reveal_strlit("PATH");
    reveal_strlit("LD_LIBRARY_PATH");
    reveal_strlit("TERM");
    reveal_strlit("LITTLE_ROOTFS");
    reveal_strlit("LD_PRELOAD");
    reveal_strlit("HOME");
    reveal_strlit("LITTLE_ROOT_ID");
    reveal_strlit("LITTLE_BINDS");
    reveal_strlit("LITTLE_KERNEL_RELEASE");
    reveal_strlit("LITTLE_QEMU");
    reveal_strlit("LITTLE_VERBOSE");
    assert("PATH"@.len() == 4 && "LD_LIBRARY_PATH"@.len() == 15 && "TERM"@.len() == 4
        && "LITTLE_ROOTFS"@.len() == 13 && "LD_PRELOAD"@.len() == 10 && "HOME"@.len() == 4
        && "LITTLE_ROOT_ID"@.len() == 14 && "LITTLE_BINDS"@.len() == 12
        && "LITTLE_KERNEL_RELEASE"@.len() == 21 && "LITTLE_QEMU"@.len() == 11
        && "LITTLE_VERBOSE"@.len() == 14);
    assert("PATH"@[0] == 'P' && "TERM"@[0] == 'T' && "HOME"@[0] == 'H');
    assert("LITTLE_ROOT_ID"@[7] == 'R' && "LITTLE_VERBOSE"@[7] == 'V');
}

/// No two names of a list are the same.
pub open spec fn distinct_names(names: Seq<Seq<char>>) -> bool {
    forall|i: int, j: int| 0 <= i < j < names.len() ==> #[trigger] names[i] != #[trigger] names[j]
}

proof fn lemma_value_concat(
    a: Seq<(Seq<char>, Seq<char>)>,
    b: Seq<(Seq<char>, Seq<char>)>,
    name: Seq<char>,
)
    ensures
        value_of(a + b, name) == (match value_of(b, name) {
            Some(v) => Some(v),
            None => value_of(a, name),
        }),
    decreases b.len(),
{
    if b.len() == 0 {
        assert(a + b =~= a);
    } else {
        assert((a + b).last() == b.last());
        assert((a + b).drop_last() =~= a + b.drop_last());
        lemma_value_concat(a, b.drop_last(), name);
    }
}

proof fn lemma_names(
    a: ArgsValue,
    preload: Seq<char>,
    host: Option<Seq<char>>,
    name: Seq<char>,
)
    ensures
        value_of(command_env(a, preload, host), name) == (if name == "LITTLE_VERBOSE"@
            && a.verbose {
            Some("1"@)
        } else if name == "LITTLE_QEMU"@ && a.qemu is Some {
            a.qemu
        } else if name == "LITTLE_KERNEL_RELEASE"@ && a.kernel_release is Some {
            a.kernel_release
        } else if name == "LITTLE_BINDS"@ && a.binds.len() > 0 {
            Some(bind_value(a.binds))
        } else if name == "LITTLE_ROOT_ID"@ && a.fake_root {
            Some("1"@)
        } else if name == "HOME"@ && a.fake_root {
            Some(a.rootfs + "/root"@)
        } else {
            value_of(base_env(a.rootfs, preload, host), name)
        }),
        value_of(base_env(a.rootfs, preload, host), name) == (if name == "LD_PRELOAD"@ {
            Some(preload)
        } else if name == "LITTLE_ROOTFS"@ {
            Some(a.rootfs)
        } else if name == "TERM"@ {
            Some("xterm-256color"@)
        } else if name == "LD_LIBRARY_PATH"@ {
            Some(base_env(a.rootfs, preload, host)[1].1)
        } else if name == "PATH"@ {
            Some(base_env(a.rootfs, preload, host)[0].1)
        } else {
            None
        }),
{
    let base = base_env(a.rootfs, preload, host);
    let root = root_env(a);
    let binds = binds_env(a);
    let kernel = when_some("LITTLE_KERNEL_RELEASE"@, a.kernel_release);
    let qemu = when_some("LITTLE_QEMU"@, a.qemu);
    let verbose = verbose_env(a);
    lemma_value_concat(base + root + binds + kernel + qemu, verbose, name);
    lemma_value_concat(base + root + binds + kernel, qemu, name);
    lemma_value_concat(base + root + binds, kernel, name);
    lemma_value_concat(base + root, binds, name);
    lemma_value_concat(base, root, name);
    lemma_distinct();
    reveal_with_fuel(value_of, 7);
}

/// Encoding goes part by part.
proof fn lemma_encode_concat(a: Seq<char>, b: Seq<char>)
    ensures
        encode_utf8(a + b) == encode_utf8(a) + encode_utf8(b),
    decreases a.len(),
{
    if a.len() == 0 {
        assert(a + b =~= b);
        assert(encode_utf8(a) + encode_utf8(b) =~= encode_utf8(b));
    } else {
        assert((a + b).drop_first() =~= a.drop_first() + b);
        lemma_encode_concat(a.drop_first(), b);
        assert(encode_utf8(a + b) =~= encode_utf8(a) + encode_utf8(b));
    }
}

/// The bytes of a scalar: one byte is the scalar itself, and several are none of them plain ASCII.
proof fn lemma_scalar_bytes(c: u32)
    by (bit_vector)
    ensures
        c <= 0x7f ==> (c & 0x7f) as u8 == c,
        (0xC0u8 | ((c >> 6) & 0x1F) as u8) >= 0x80u8,
        (0xE0u8 | ((c >> 12) & 0x0F) as u8) >= 0x80u8,
        (0xF0u8 | ((c >> 18) & 0x7) as u8) >= 0x80u8,
        (0x80u8 | (c & 0x3F) as u8) >= 0x80u8,
        (0x80u8 | ((c >> 6) & 0x3F) as u8) >= 0x80u8,
        (0x80u8 | ((c >> 12) & 0x3F) as u8) >= 0x80u8,
{
}

/// An ASCII character that does not occur in a text does not occur among its bytes.
proof fn lemma_encode_lacks(s: Seq<char>, c: char, b: u8)
    requires
        c as u32 == b as u32,
        b < 0x80,
        !s.contains(c),
    ensures
        !encode_utf8(s).contains(b),
    decreases s.len(),
{
    if s.len() > 0 {
        let rest = s.drop_first();
        assert(!rest.contains(c)) by {
            if rest.contains(c) {
                let k = choose|k: int| 0 <= k < rest.len() && rest[k] == c;
                assert(s[k + 1] == c);
            }
        }
        lemma_encode_lacks(rest, c, b);
        let head = encode_scalar(s[0] as u32);
        let first = s[0] as u32;
        vstd::utf8::char_is_scalar(s[0]);
        vstd::utf8::char_u32_cast(s[0], first);
        vstd::utf8::char_u32_cast(c, b as u32);
        lemma_scalar_bytes(first);
        assert(s[0] != c);
        assert(first != b as u32);
        assert(forall|i: int| 0 <= i < head.len() ==> head[i] != b);
        if encode_utf8(s).contains(b) {
            let k = choose|k: int| 0 <= k < encode_utf8(s).len() && encode_utf8(s)[k] == b;
            if k >= head.len() {
                assert(encode_utf8(rest)[k - head.len()] == b);
            }
        }
    }
}

/// The bytes of one ASCII character.
proof fn lemma_encode_one(s: Seq<char>, c: char, b: u8)
    requires
        s == seq![c],
        c as u32 == b as u32,
        b < 0x80,
    ensures
        encode_utf8(s) == seq![b],
{
    lemma_scalar_bytes(c as u32);
    assert(s.drop_first() =~= Seq::empty());
    assert(encode_utf8(s.drop_first()) =~= Seq::empty());
    assert(encode_utf8(s) =~= seq![b]);
}

/// Joining starts with the first text.
proof fn lemma_joined_first(list: Seq<Seq<char>>, sep: Seq<char>)
    requires
        list.len() >= 2,
    ensures
        joined(list, sep) == list[0] + sep + joined(list.skip(1), sep),
    decreases list.len(),
{
    let rest = list.skip(1);
    if list.len() == 2 {
        assert(list.drop_last() =~= seq![list[0]]);
        assert(rest =~= seq![list[1]]);
        assert(joined(list.drop_last(), sep) == list[0]);
    } else {
        lemma_joined_first(list.drop_last(), sep);
        assert(list.drop_last().skip(1) =~= rest.drop_last());
        assert(rest.last() == list.last());
        assert(joined(list, sep) =~= list[0] + sep + joined(rest, sep));
    }
}

/// Splitting at the semicolons undoes joining with them, where no text holds one.
proof fn lemma_split_joined(list: Seq<Seq<char>>)
    requires
        list.len() > 0,
        forall|i: int| 0 <= i < list.len() ==> !(#[trigger] list[i]).contains(';'),
    ensures
        split(encode_utf8(joined(list, ";"@)), 0x3b) == list.map_values(
            |e: Seq<char>| encode_utf8(e),
        ),
    decreases list.len(),
{
    reveal_strlit(";");
    assert(";"@ =~= seq![';']);
    let sep = seq![0x3bu8];
    let all = encode_utf8(joined(list, ";"@));
    let head = encode_utf8(list[0]);
    lemma_encode_lacks(list[0], ';', 0x3b);
    assert forall|i: int| 0 <= i < head.len() implies !sep.contains(#[trigger] head[i]) by {
        if sep.contains(head[i]) {
            assert(head.contains(0x3b));
        }
    }
    if list.len() == 1 {
        lemma_first_of_is(head, 0, sep, head.len() as int);
        assert(split(all, 0x3b) =~= list.map_values(|e: Seq<char>| encode_utf8(e)));
    } else {
        let rest = list.skip(1);
        lemma_joined_first(list, ";"@);
        assert forall|i: int| 0 <= i < rest.len() implies !(#[trigger] rest[i]).contains(';') by {
            assert(rest[i] == list[i + 1]);
        }
        lemma_split_joined(rest);
        lemma_encode_one(";"@, ';', 0x3b);
        lemma_encode_concat(list[0] + ";"@, joined(rest, ";"@));
        lemma_encode_concat(list[0], ";"@);
        let tail = encode_utf8(joined(rest, ";"@));
        assert(all =~= head + sep + tail);
        assert(all[head.len() as int] == 0x3b);
        assert(sep.contains(all[head.len() as int])) by {
            assert(sep[0] == all[head.len() as int]);
        }
        assert forall|i: int| 0 <= i < head.len() implies !sep.contains(#[trigger] all[i]) by {
            assert(all[i] == head[i]);
        }
        lemma_first_of_is(all, 0, sep, head.len() as int);
        assert(all.take(head.len() as int) =~= head);
        assert(all.skip(head.len() as int + 1) =~= tail);
        assert(split(all, 0x3b) =~= list.map_values(|e: Seq<char>| encode_utf8(e)));
    }
}

/// One entry gives back the two paths that it was made of.
proof fn lemma_parse_bind(host: Seq<char>, guest: Seq<char>)
    requires
        !host.contains(':'),
    ensures
        parse_bind(encode_utf8(host + ":"@ + guest)) == Some(
            (encode_utf8(host), encode_utf8(guest)),
        ),
{
    reveal_strlit(":");
    assert(":"@ =~= seq![':']);
    let colon = seq![0x3au8];
    let head = encode_utf8(host);
    let tail = encode_utf8(guest);
    let all = encode_utf8(host + ":"@ + guest);
    lemma_encode_lacks(host, ':', 0x3a);
    lemma_encode_one(":"@, ':', 0x3a);
    lemma_encode_concat(host + ":"@, guest);
    lemma_encode_concat(host, ":"@);
    assert(all =~= head + colon + tail);
    assert(all[head.len() as int] == 0x3a);
    assert(colon.contains(all[head.len() as int])) by {
        assert(colon[0] == all[head.len() as int]);
    }
    assert forall|i: int| 0 <= i < head.len() implies !colon.contains(#[trigger] all[i]) by {
        assert(all[i] == head[i]);
        if colon.contains(head[i]) {
            assert(head.contains(0x3a));
        }
    }
    lemma_first_of_is(all, 0, colon, head.len() as int);
    assert(all.take(head.len() as int) =~= head);
    assert(all.skip(head.len() as int + 1) =~= tail);
}

/// Where every entry is a bind mount, the list is read entry by entry.
proof fn lemma_parse_entries(raw: Seq<Seq<u8>>, binds: Seq<(Seq<u8>, Seq<u8>)>)
    requires
        raw.len() == binds.len(),
        forall|i: int| 0 <= i < raw.len() ==> #[trigger] parse_bind(raw[i]) == Some(binds[i]),
    ensures
        parse_entries(raw) == binds,
    decreases raw.len(),
{
    if raw.len() == 0 {
        assert(parse_entries(raw) =~= binds);
    } else {
        let most = raw.drop_last();
        assert forall|i: int| 0 <= i < most.len() implies #[trigger] parse_bind(most[i]) == Some(
            binds.drop_last()[i],
        ) by {
            assert(parse_bind(raw[i]) == Some(binds[i]));
        }
        lemma_parse_entries(most, binds.drop_last());
        assert(parse_bind(raw[raw.len() - 1]) == Some(binds[raw.len() - 1]));
        assert(binds =~= binds.drop_last().push(binds.last()));
    }
}

/// Every variable that a command is started with has the value that it is meant to have, and no other
/// variable is set: the search paths for programs and libraries lie in the root filesystem, the terminal is
/// fixed, and the rest is what the command line asked for.
pub proof fn law_environment(
    a: ArgsValue,
    preload: Seq<char>,
    host: Option<Seq<char>>,
    name: Seq<char>,
)
    ensures
        ({
            let env = command_env(a, preload, host);
            &&& value_of(env, "PATH"@) == Some(
                a.rootfs + "/usr/bin:"@ + a.rootfs + "/bin:"@ + a.rootfs + "/sbin:/system/bin"@,
            )
            &&& value_of(env, "LD_LIBRARY_PATH"@) == Some(
                crate::launch::library_path(a.rootfs, host),
            )
            &&& value_of(env, "TERM"@) == Some("xterm-256color"@)
            &&& value_of(env, "LITTLE_ROOTFS"@) == Some(a.rootfs)
            &&& value_of(env, "LD_PRELOAD"@) == Some(preload)
            &&& value_of(env, "HOME"@) == (if a.fake_root {
                Some(a.rootfs + "/root"@)
            } else {
                None
            })
            &&& value_of(env, "LITTLE_ROOT_ID"@) == (if a.fake_root {
                Some("1"@)
            } else {
                None
            })
            &&& value_of(env, "LITTLE_BINDS"@) == (if a.binds.len() > 0 {
                Some(bind_value(a.binds))
            } else {
                None
            })
            &&& value_of(env, "LITTLE_KERNEL_RELEASE"@) == a.kernel_release
            &&& value_of(env, "LITTLE_QEMU"@) == a.qemu
            &&& value_of(env, "LITTLE_VERBOSE"@) == (if a.verbose {
                Some("1"@)
            } else {
                None
            })
            &&& value_of(env, name) is Some ==> seq![
                "PATH"@,
                "LD_LIBRARY_PATH"@,
                "TERM"@,
                "LITTLE_ROOTFS"@,
                "LD_PRELOAD"@,
                "HOME"@,
                "LITTLE_ROOT_ID"@,
                "LITTLE_BINDS"@,
                "LITTLE_KERNEL_RELEASE"@,
                "LITTLE_QEMU"@,
                "LITTLE_VERBOSE"@,
            ].contains(name)
        }),
{
    lemma_names(a, preload, host, "PATH"@);
    lemma_names(a, preload, host, "LD_LIBRARY_PATH"@);
    lemma_names(a, preload, host, "TERM"@);
    lemma_names(a, preload, host, "LITTLE_ROOTFS"@);
    lemma_names(a, preload, host, "LD_PRELOAD"@);
    lemma_names(a, preload, host, "HOME"@);
    lemma_names(a, preload, host, "LITTLE_ROOT_ID"@);
    lemma_names(a, preload, host, "LITTLE_BINDS"@);
    lemma_names(a, preload, host, "LITTLE_KERNEL_RELEASE"@);
    lemma_names(a, preload, host, "LITTLE_QEMU"@);
    lemma_names(a, preload, host, "LITTLE_VERBOSE"@);
    lemma_names(a, preload, host, name);
    lemma_distinct();
    let all = seq![
        "PATH"@,
        "LD_LIBRARY_PATH"@,
        "TERM"@,
        "LITTLE_ROOTFS"@,
        "LD_PRELOAD"@,
        "HOME"@,
        "LITTLE_ROOT_ID"@,
        "LITTLE_BINDS"@,
        "LITTLE_KERNEL_RELEASE"@,
        "LITTLE_QEMU"@,
        "LITTLE_VERBOSE"@,
    ];
    assert(all[0] == "PATH"@ && all[1] == "LD_LIBRARY_PATH"@ && all[2] == "TERM"@ && all[3]
        == "LITTLE_ROOTFS"@ && all[4] == "LD_PRELOAD"@ && all[5] == "HOME"@ && all[6]
        == "LITTLE_ROOT_ID"@ && all[7] == "LITTLE_BINDS"@ && all[8] == "LITTLE_KERNEL_RELEASE"@
        && all[9] == "LITTLE_QEMU"@ && all[10] == "LITTLE_VERBOSE"@);
}

} // verus!
