use lroot::call::{Sys, EPERM};
use lroot::config::Config;
use lroot::identity::{self, CapAction, CapHeader, IdAction, PersonaAction, Refusal, UtsFields};

#[test]
fn test_fake_root() {
    let c = Config::from_env(Some(b"/r"), None, Some(b"1"));
    assert!(matches!(identity::getuid(&c), IdAction::Answer(0)));
    assert!(matches!(identity::geteuid(&c), IdAction::Answer(0)));
    assert!(matches!(identity::getgid(&c), IdAction::Answer(0)));
    assert!(matches!(identity::getegid(&c), IdAction::Answer(0)));
}

#[test]
fn without_fake_root_the_kernel_is_asked() {
    let c = Config::from_env(Some(b"/r"), None, None);
    assert!(matches!(identity::getuid(&c), IdAction::Ask(Sys::Getuid)));
    assert!(matches!(identity::geteuid(&c), IdAction::Ask(Sys::Geteuid)));
    assert!(matches!(identity::getgid(&c), IdAction::Ask(Sys::Getgid)));
    assert!(matches!(identity::getegid(&c), IdAction::Ask(Sys::Getegid)));
    match identity::capget(&c, None, true) {
        CapAction::Ask(call) => assert!(call.sys == Sys::Capget && call.args.len() == 2),
        CapAction::Answer(_) => panic!("answered"),
    }
}

#[test]
fn fake_root_has_every_capability() {
    let c = Config::from_env(Some(b"/r"), None, Some(b""));
    for (version, sets) in [(0x19980330, 1), (0x20071026, 2), (0x20080522, 2), (0, 1)] {
        match identity::capget(&c, Some(CapHeader { version, pid: 0 }), true) {
            CapAction::Answer(list) => {
                assert_eq!(list.len(), sets);
                for d in list {
                    assert_eq!(d.effective, 0xffffffff);
                    assert_eq!(d.permitted, 0xffffffff);
                    assert_eq!(d.inheritable, 0xffffffff);
                }
            }
            CapAction::Ask(_) => panic!("asked"),
        }
    }
    assert!(matches!(identity::capget(&c, None, true), CapAction::Answer(l) if l.is_empty()));
    let hdr = CapHeader { version: 0x20080522, pid: 0 };
    assert!(matches!(identity::capget(&c, Some(hdr), false), CapAction::Answer(l) if l.is_empty()));
}

#[test]
fn uname_overlays_machine_and_release() {
    let fields = || UtsFields { machine: vec![b'm'; 65], release: vec![b'r'; 65] };
    let r = identity::uname(0, fields(), Some(b"aarch64"), Some(b"5.10.0"));
    assert_eq!(&r.machine[..8], b"aarch64\0");
    assert_eq!(&r.machine[8..], &[b'm'; 57][..]);
    assert_eq!(&r.release[..7], b"5.10.0\0");
    let long = identity::uname(0, fields(), Some(&[b'x'; 100]), None);
    assert_eq!(&long.machine[..64], &[b'x'; 64][..]);
    assert_eq!(long.machine[64], 0);
    assert_eq!(long.release, vec![b'r'; 65]);
    let failed = identity::uname(-1, fields(), Some(b"x"), Some(b"y"));
    assert_eq!(failed.machine, vec![b'm'; 65]);
    assert_eq!(failed.release, vec![b'r'; 65]);
}

#[test]
fn guarded_calls_are_refused() {
    let no = Refusal { errno: EPERM, result: -1 };
    assert!(identity::ptrace() == no);
    assert!(identity::chroot() == no);
    assert!(identity::pivot_root() == no);
    assert!(identity::init_module() == no);
    assert!(identity::finit_module() == no);
    assert!(identity::delete_module() == no);
    assert!(identity::reboot() == no);
    assert!(identity::swapon() == no);
    assert!(identity::swapoff() == no);
    assert!(identity::kexec_load() == no);
    assert!(identity::iopl() == no);
}

#[test]
fn randomisation_cannot_be_switched_off() {
    assert!(matches!(identity::personality(0x40000), PersonaAction::Refuse(_)));
    assert!(matches!(identity::personality(0x40008), PersonaAction::Refuse(_)));
    assert!(matches!(identity::personality(8), PersonaAction::Ask(_)));
    assert!(matches!(identity::personality(usize::MAX), PersonaAction::Ask(_)));
    assert!(matches!(identity::personality(0xffffffff), PersonaAction::Refuse(_)));
}
