use lroot::error::Error;
use lroot::pty::{preload_path, Manager, Session};
use lroot::App;

fn manager() -> Manager {
    match Manager::new() {
        Ok(m) => m,
        Err(_) => panic!("no manager"),
    }
}

fn session(fd: i32) -> Result<Session, Error> {
    Ok(Session { pty_master: fd, child_pid: fd + 100 })
}

#[test]
fn sessions_are_numbered_from_one() {
    let mut m = manager();
    let one = m.create_session("/bin/sh", "", None, false, false);
    assert_eq!(one.id, 1);
    assert_eq!(one.shell, "/bin/sh");
    assert_eq!(one.args, vec!["-i"]);
    assert!(matches!(m.finish_session(one.id, session(5)), Ok(1)));
    let two = m.create_session("bad\0shell", "", None, false, false);
    assert_eq!(two.id, 2);
    assert_eq!(two.shell, "/system/bin/sh");
    let failed = m.finish_session(two.id, Err(Error::Pty("no pty".to_string())));
    assert!(matches!(failed, Err(Error::Pty(t)) if t == "no pty"));
    assert_eq!(m.create_session("/bin/sh", "", None, false, false).id, 3);
    assert_eq!(m.get_session_fd(1), Some(5));
    assert_eq!(m.get_session_fd(2), None);
}

#[test]
fn input_and_size_go_to_the_sessions_terminal() {
    let mut m = manager();
    let id = m.create_session("/bin/sh", "", None, false, false).id;
    assert!(m.finish_session(id, session(8)).is_ok());
    match m.write_input(id, b"ls\n") {
        Ok(i) => {
            assert_eq!(i.fd, 8);
            assert_eq!(i.data, b"ls\n".to_vec());
        }
        Err(_) => panic!("refused"),
    }
    match m.resize(id, 80, 24) {
        Ok(r) => assert_eq!((r.fd, r.ws_col, r.ws_row, r.ws_xpixel, r.ws_ypixel), (8, 80, 24, 0, 0)),
        Err(_) => panic!("refused"),
    }
    match m.write_input(4294967295, b"") {
        Err(e) => assert_eq!(e.message(), "PTY: Session 4294967295 not found"),
        Ok(_) => panic!("accepted"),
    }
    match m.resize(70, 1, 1) {
        Err(e) => assert_eq!(e.message(), "PTY: Session 70 not found"),
        Ok(_) => panic!("accepted"),
    }
}

#[test]
fn closed_sessions_are_gone_and_their_numbers_too() {
    let mut m = manager();
    for fd in [3, 4, 5] {
        let id = m.create_session("/bin/sh", "", None, false, false).id;
        assert!(m.finish_session(id, session(fd)).is_ok());
    }
    let gone = m.close_session(2).unwrap();
    assert_eq!((gone.pty_master, gone.child_pid), (4, 104));
    assert!(m.close_session(2).is_none());
    assert_eq!(m.get_session_fd(2), None);
    let mut ids = m.session_ids();
    ids.sort();
    assert_eq!(ids, vec![1, 3]);
    assert_eq!(m.create_session("/bin/sh", "", None, false, false).id, 4);
    let mut all: Vec<(u32, i32)> = m.close_all().iter().map(|p| (p.0, p.1.pty_master)).collect();
    all.sort();
    assert_eq!(all, vec![(1, 3), (3, 5)]);
    assert!(m.session_ids().is_empty());
}

#[test]
fn the_environment_of_a_session_follows_the_rootfs() {
    let host = Manager::build_envp("", Some("wl"), true, true);
    assert_eq!(
        host,
        vec![
            "TERM=xterm-256color",
            "PS1=$ ",
            "WAYLAND_DISPLAY=wl",
            "PATH=/sbin:/system/bin:/system/xbin:/data/data/com.littlelinuxrunner/files/rootfs/usr/bin:/data/data/com.littlelinuxrunner/files/rootfs/bin",
            "HOME=/data/data/com.littlelinuxrunner",
        ]
    );
    let guest = Manager::build_envp("/r", None, true, true);
    assert_eq!(
        guest,
        vec![
            "TERM=xterm-256color",
            "PS1=$ ",
            "WAYLAND_DISPLAY=",
            "HOME=/r/root",
            "PATH=/r/usr/bin:/r/bin:/system/bin:/system/xbin",
            "LD_LIBRARY_PATH=/r/lib:/r/lib64:/system/lib64:/system/lib",
            "LITTLE_ROOTFS=/r",
            "LD_PRELOAD=/r/lib/libintercept.so",
        ]
    );
    let fallback = Manager::build_envp("/r", None, false, true);
    assert_eq!(
        fallback.last().unwrap(),
        "LD_PRELOAD=/data/data/com.littlelinuxrunner/lib/libintercept.so"
    );
    assert_eq!(Manager::build_envp("/r", None, false, false).len(), 7);
    assert_eq!(preload_path("/r"), "/r/lib/libintercept.so");
}

#[test]
fn an_app_needs_to_be_started() {
    let mut app = App::new();
    assert_eq!(app.rootfs_path(), "");
    assert_eq!(app.run(), None);
    assert_eq!(app.get_session_fd(1), None);
    for e in [
        app.create_pty_session("/bin/sh", None, false, false).err().unwrap(),
        app.write_pty(1, b"x").err().unwrap(),
        app.resize_pty(1, 80, 24).err().unwrap(),
        app.finish_pty_session(1, session(3)).err().unwrap(),
    ] {
        assert_eq!(e.message(), "Invalid state: PTY manager not initialized");
    }
}

#[test]
fn a_started_app_runs_sessions() {
    let mut app = App::new();
    app.set_rootfs_path("/r");
    assert_eq!(app.rootfs_path(), "/r");
    assert!(app.start().ok().unwrap().is_empty());
    assert_eq!(app.intercept_manager.as_ref().unwrap().rootfs_path(), "/r");
    let plan = app.create_pty_session("/bin/sh", None, false, false).ok().unwrap();
    assert_eq!(plan.id, 1);
    assert_eq!(plan.env[3], "HOME=/r/root");
    assert!(matches!(app.finish_pty_session(1, session(9)), Ok(1)));
    assert_eq!(app.get_session_fd(1), Some(9));
    assert_eq!(app.write_pty(1, b"x").ok().unwrap().fd, 9);
    assert_eq!(app.resize_pty(1, 3, 2).ok().unwrap().ws_row, 2);
    assert!(app.write_pty(2, b"x").is_err());
    let ended = app.start().ok().unwrap();
    assert_eq!(ended.len(), 1);
    assert_eq!(ended[0].1.pty_master, 9);
    assert_eq!(app.get_session_fd(1), None);
    app.shutdown();
    assert_eq!(app.run(), Some(0));
}

#[test]
fn a_session_before_the_start_is_refused_whatever_the_path() {
    let mut app = App::new();
    app.set_rootfs_path("/r\0oot");
    let refused = app.create_pty_session("/bin/sh", Some("way\0land"), true, true).err().unwrap();
    assert_eq!(refused.message(), "Invalid state: PTY manager not initialized");
}
