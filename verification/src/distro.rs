//! The distributions that `lroot-distro` knows, and where they are kept.
use vstd::prelude::*;

use crate::path::join_path;
#[allow(unused_imports)]
use crate::path::joined_path;
use crate::text::same_text;
#[allow(unused_imports)]
use crate::text::{str_opt, texts};

verus! {

/// A distribution: its name, and where the archive of its root filesystem is found.
#[derive(Clone, Copy)]
pub struct Distro {
    pub name: &'static str,
    pub tarball_url: &'static str,
}

/// The known distributions, each with its name and its archive, in the order in which they are listed.
pub open spec fn known() -> Seq<(Seq<char>, Seq<char>)> {
    seq![
        (
            "alpine"@,
            "https://dl-cdn.alpinelinux.org/alpine/v3.21/releases/aarch64/alpine-minirootfs-3.21.3-aarch64.tar.gz"@,
        ),
        (
            "alpine-amd64"@,
            "https://dl-cdn.alpinelinux.org/alpine/v3.21/releases/x86_64/alpine-minirootfs-3.21.3-x86_64.tar.gz"@,
        ),
        (
            "ubuntu"@,
            "https://cloud-images.ubuntu.com/releases/24.04/release/ubuntu-24.04-minimal-cloudimg-amd64-root.tar.xz"@,
        ),
        (
            "debian"@,
            "https://github.com/nickg/rootfs/releases/download/v2025-01-01/debian-bookworm-arm64.tar.gz"@,
        ),
        (
            "arch"@,
            "https://github.com/nickg/rootfs/releases/download/v2025-01-01/archlinux-arm64.tar.gz"@,
        ),
    ]
}

/// The names and archives of a list of distributions.
pub open spec fn listed(list: Seq<Distro>) -> Seq<(Seq<char>, Seq<char>)> {
    list.map_values(|d: Distro| (d.name@, d.tarball_url@))
}

/// The known distributions.
pub fn distros() -> (r: Vec<Distro>)
    ensures
        listed(r@) == known(),
{
    let mut list: Vec<Distro> = Vec::new();
    list.push(
        Distro {
            name: "alpine",
            tarball_url: "https://dl-cdn.alpinelinux.org/alpine/v3.21/releases/aarch64/alpine-minirootfs-3.21.3-aarch64.tar.gz",
        },
    );
    list.push(
        Distro {
            name: "alpine-amd64",
            tarball_url: "https://dl-cdn.alpinelinux.org/alpine/v3.21/releases/x86_64/alpine-minirootfs-3.21.3-x86_64.tar.gz",
        },
    );
    list.push(
        Distro {
            name: "ubuntu",
            tarball_url: "https://cloud-images.ubuntu.com/releases/24.04/release/ubuntu-24.04-minimal-cloudimg-amd64-root.tar.xz",
        },
    );
    list.push(
        Distro {
            name: "debian",
            tarball_url: "https://github.com/nickg/rootfs/releases/download/v2025-01-01/debian-bookworm-arm64.tar.gz",
        },
    );
    list.push(
        Distro {
            name: "arch",
            tarball_url: "https://github.com/nickg/rootfs/releases/download/v2025-01-01/archlinux-arm64.tar.gz",
        },
    );
    proof {
        assert(listed(list@) =~= known());
    }
    list
}

/// Whether a distribution of that name is known.
pub open spec fn is_known(name: Seq<char>) -> bool {
    exists|i: int| 0 <= i < known().len() && (#[trigger] known()[i]).0 == name
}

/// The known distribution of the given name.
pub fn find(name: &str) -> (r: Option<Distro>)
    ensures
        r is Some == is_known(name@),
        r matches Some(d) ==> d.name@ == name@ && known().contains((d.name@, d.tarball_url@)),
{
    let list = distros();
    let ghost all = known();
    let mut i: usize = 0;
    while i < list.len()
        invariant
            i <= list@.len(),
            listed(list@) == all,
            all == known(),
            forall|j: int| 0 <= j < i ==> (#[trigger] all[j]).0 != name@,
        decreases list.len() - i,
    {
        proof {
            assert(all[i as int] == (list@[i as int].name@, list@[i as int].tarball_url@));
        }
        if same_text(list[i].name, name) {
            return Some(list[i]);
        }
        i += 1;
    }
    proof {
        assert(listed(list@).len() == list@.len());
    }
    None
}

/// The directory that distributions are kept in: the one that `LROOT_DISTRO_DIR` names, or one in the
/// home directory.
pub open spec fn data_dir_of(setting: Option<Seq<char>>, home: Option<Seq<char>>) -> Seq<char> {
    match setting {
        Some(dir) => dir,
        None => joined_path(
            joined_path(
                match home {
                    Some(h) => h,
                    None => "/tmp"@,
                },
                ".lroot"@,
            ),
            "distros"@,
        ),
    }
}

/// The directory that distributions are kept in, given the values of `LROOT_DISTRO_DIR` and `HOME` where
/// they are set.
pub fn data_dir(setting: Option<&str>, home: Option<&str>) -> (r: String)
    ensures
        r@ == data_dir_of(str_opt(setting), str_opt(home)),
{
    match setting {
        Some(dir) => dir.to_owned(),
        None => {
            let base = match home {
                Some(h) => h,
                None => "/tmp",
            };
            join_path(join_path(base, ".lroot").as_str(), "distros")
        },
    }
}

/// The directory that a distribution is kept in.
pub fn distro_dir(setting: Option<&str>, home: Option<&str>, name: &str) -> (r: String)
    ensures
        r@ == joined_path(data_dir_of(str_opt(setting), str_opt(home)), name@),
{
    join_path(data_dir(setting, home).as_str(), name)
}

/// A name stands for one distribution only.
pub proof fn law_names_are_unique(i: int, j: int)
    requires
        0 <= i < known().len(),
        0 <= j < known().len(),
        known()[i].0 == known()[j].0,
    ensures
        i == j,
{
    reveal_strlit("alpine");
    reveal_strlit("alpine-amd64");
    reveal_strlit("ubuntu");
    reveal_strlit("debian");
    reveal_strlit("arch");
    assert("alpine"@.len() == 6 && "alpine-amd64"@.len() == 12 && "ubuntu"@.len() == 6
        && "debian"@.len() == 6 && "arch"@.len() == 4);
    assert("alpine"@[0] == 'a' && "ubuntu"@[0] == 'u' && "debian"@[0] == 'd');
}

/// Distributions are kept where the setting says, and without one below the home directory, in `.lroot` and
/// there in `distros`; without a home directory `/tmp` takes its place.
pub proof fn law_data_dir(dir: Seq<char>, home: Option<Seq<char>>, own: Seq<char>)
    ensures
        data_dir_of(Some(dir), home) == dir,
        own.len() > 0 && own.last() != '/' ==> data_dir_of(None, Some(own)) == own
            + "/.lroot/distros"@,
        data_dir_of(None, None) == "/tmp/.lroot/distros"@,
{
    reveal_strlit("/tmp");
    reveal_strlit(".lroot");
    reveal_strlit("distros");
    reveal_strlit("/.lroot/distros");
    reveal_strlit("/tmp/.lroot/distros");
    assert("/tmp"@.last() == 'p');
    assert(".lroot"@[0] == '.' && "distros"@[0] == 'd');
    let first = own + seq!['/'] + ".lroot"@;
    assert(first.last() == 't');
    assert(first + seq!['/'] + "distros"@ =~= own + "/.lroot/distros"@);
    let second = "/tmp"@ + seq!['/'] + ".lroot"@;
    assert(second.last() == 't');
    assert(second + seq!['/'] + "distros"@ =~= "/tmp/.lroot/distros"@);
}

/// Each of the five known distributions is fetched from its own place.
pub proof fn law_archives(name: Seq<char>, url: Seq<char>)
    ensures
        known().len() == 5,
        known().contains((name, url)) <==> {
            ||| name == "alpine"@ && url
                == "https://dl-cdn.alpinelinux.org/alpine/v3.21/releases/aarch64/alpine-minirootfs-3.21.3-aarch64.tar.gz"@
            ||| name == "alpine-amd64"@ && url
                == "https://dl-cdn.alpinelinux.org/alpine/v3.21/releases/x86_64/alpine-minirootfs-3.21.3-x86_64.tar.gz"@
            ||| name == "ubuntu"@ && url
                == "https://cloud-images.ubuntu.com/releases/24.04/release/ubuntu-24.04-minimal-cloudimg-amd64-root.tar.xz"@
            ||| name == "debian"@ && url
                == "https://github.com/nickg/rootfs/releases/download/v2025-01-01/debian-bookworm-arm64.tar.gz"@
            ||| name == "arch"@ && url
                == "https://github.com/nickg/rootfs/releases/download/v2025-01-01/archlinux-arm64.tar.gz"@
        },
        is_known(name) <==> name == "alpine"@ || name == "alpine-amd64"@ || name == "ubuntu"@ || name
            == "debian"@ || name == "arch"@,
{
    let all = known();
    assert(all[0].0 == "alpine"@ && all[1].0 == "alpine-amd64"@ && all[2].0 == "ubuntu"@ && all[3].0
        == "debian"@ && all[4].0 == "arch"@);
    assert(all.contains(all[0]) && all.contains(all[1]) && all.contains(all[2]) && all.contains(
        all[3],
    ) && all.contains(all[4]));
}

} // verus!
