//! The root of the unified cgroup hierarchy.

use cfc_daemon::ebpf::cgroup::{unescape, v2_root_from_mounts};

const HYBRID: &str = "\
sysfs /sys sysfs rw,nosuid,nodev,noexec,relatime 0 0
proc /proc proc rw,nosuid,nodev,noexec,relatime 0 0
tmpfs /sys/fs/cgroup tmpfs ro,nosuid,nodev,noexec,mode=755 0 0
cgroup2 /sys/fs/cgroup/unified cgroup2 rw,nosuid,nodev,noexec,relatime,nsdelegate 0 0
cgroup /sys/fs/cgroup/systemd cgroup rw,nosuid,nodev,noexec,relatime,xattr,name=systemd 0 0
cgroup /sys/fs/cgroup/memory cgroup rw,nosuid,nodev,noexec,relatime,memory 0 0
";

const UNIFIED: &str = "\
proc /proc proc rw,nosuid,nodev,noexec,relatime 0 0
cgroup2 /sys/fs/cgroup cgroup2 rw,nosuid,nodev,noexec,relatime,nsdelegate,memory_recursiveprot 0 0
tmpfs /tmp tmpfs rw,nosuid,nodev,size=8144836k,nr_inodes=1048576,inode64 0 0
";

#[test]
fn finds_the_unified_root_on_a_modern_host() {
    assert_eq!(
        v2_root_from_mounts(UNIFIED),
        Some("/sys/fs/cgroup".to_string())
    );
}

#[test]
fn falls_back_to_the_hybrid_location() {
    assert_eq!(
        v2_root_from_mounts(HYBRID),
        Some("/sys/fs/cgroup/unified".to_string())
    );
}

#[test]
fn prefers_sys_fs_cgroup_even_when_it_is_not_first() {
    let mounts = "cgroup2 /run/other cgroup2 rw 0 0\ncgroup2 /sys/fs/cgroup cgroup2 rw 0 0\n";
    assert_eq!(
        v2_root_from_mounts(mounts),
        Some("/sys/fs/cgroup".to_string())
    );
}

#[test]
fn v1_only_host_has_no_v2_root() {
    let mounts = "cgroup /sys/fs/cgroup/systemd cgroup rw,name=systemd 0 0\n";
    assert_eq!(v2_root_from_mounts(mounts), None);
    assert_eq!(v2_root_from_mounts(""), None);
}

#[test]
fn decodes_octal_escapes_in_the_mountpoint() {
    let mounts = "cgroup2 /run/my\\040cgroups cgroup2 rw 0 0\n";
    assert_eq!(
        v2_root_from_mounts(mounts),
        Some("/run/my cgroups".to_string())
    );
}

#[test]
fn a_malformed_line_does_not_derail_the_scan() {
    let mounts = "garbage\n\ncgroup2 /sys/fs/cgroup cgroup2 rw 0 0\n";
    assert_eq!(
        v2_root_from_mounts(mounts),
        Some("/sys/fs/cgroup".to_string())
    );
}

#[test]
fn a_trailing_slash_is_the_same_directory() {
    let mounts = "cgroup2 /first cgroup2 rw 0 0\ncgroup2 /sys/fs/cgroup/ cgroup2 rw 0 0\n";
    assert_eq!(
        v2_root_from_mounts(mounts),
        Some("/sys/fs/cgroup/".to_string())
    );
}

#[test]
fn an_unfinished_escape_is_kept_as_it_is() {
    let mounts = "cgroup2 /run/a\\04 cgroup2 rw 0 0\n";
    assert_eq!(v2_root_from_mounts(mounts), Some("/run/a\\04".to_string()));
}

fn decoded(raw: &str) -> String {
    unescape(&raw.chars().collect::<Vec<char>>()).into_iter().collect()
}

#[test]
fn only_escapes_are_decoded() {
    assert_eq!(decoded("/run/é\\040x"), "/run/é x");
    assert_eq!(decoded("\\040\\011\\012\\134"), " \t\n\\");
    assert_eq!(decoded("\\101\\377"), "A\u{ff}");
    assert_eq!(decoded("/plain/é"), "/plain/é");
    for kept in ["\\+40", "\\400", "\\08x", "\\é12", "\\12", "\\", "a\\"] {
        assert_eq!(decoded(kept), kept);
    }
    assert_eq!(decoded("\\134040"), "\\040", "what was decoded is not decoded again");
}

#[test]
fn a_path_escaped_as_the_kernel_escapes_it_reads_back() {
    for path in ["/a b\tc\nd\\e", "\\040", "/sys/fs/cgroup", "", "é \\134"] {
        let raw: String = path
            .chars()
            .map(|c| match c {
                ' ' => "\\040".to_string(),
                '\t' => "\\011".to_string(),
                '\n' => "\\012".to_string(),
                '\\' => "\\134".to_string(),
                other => other.to_string(),
            })
            .collect();
        assert_eq!(decoded(&raw), path);
    }
}
