use lroot::call::{AT_FDCWD, AT_REMOVEDIR, AT_SYMLINK_NOFOLLOW, EPERM};
use lroot::exec::S_ISUID;
use lroot::wait::SYSCALL_STOP;

#[test]
fn constants_are_the_kernels() {
    assert_eq!(AT_FDCWD, libc::AT_FDCWD);
    assert_eq!(AT_SYMLINK_NOFOLLOW, libc::AT_SYMLINK_NOFOLLOW as i64);
    assert_eq!(AT_REMOVEDIR, libc::AT_REMOVEDIR as i64);
    assert_eq!(EPERM, libc::EPERM);
    assert_eq!(S_ISUID, libc::S_ISUID as u32);
    assert_eq!(SYSCALL_STOP, libc::SIGTRAP | 0x80);
}
