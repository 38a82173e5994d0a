use linux_programming::commands::chmod::permission_bits;
use linux_programming::commands::stat::{get_filetype, size_line};
use linux_programming::commands::tree::{
    child_indent, is_directory, is_dot_entry, tree_line, walk_step, WalkAction, INDENT_STEP,
};
use linux_programming::dylibs_binding::crypto::md5_digest_hex;
use linux_programming::errno::{errno_err_msg, ErrnoError};
use linux_programming::file_system::usage_line;
use linux_programming::system_call::{c_str_bytes, c_str_to_string};
use linux_programming::NAME_MAX;

fn digest_of(hex: &str) -> [u8; 16] {
    let mut digest = [0u8; 16];
    for i in 0..16 {
        digest[i] = u8::from_str_radix(&hex[2 * i..2 * i + 2], 16).unwrap();
    }
    digest
}

#[test]
fn md5_digests_print_as_lower_case_hexadecimal() {
    for hex in [
        "9e107d9d372bb6826bd81d3542a419d6",
        "e4d909c290d0fb1ca068ffaddf22cbd0",
        "d41d8cd98f00b204e9800998ecf8427e",
    ] {
        assert_eq!(md5_digest_hex(digest_of(hex)), hex);
    }
}

#[test]
fn md5_digests_print_without_leading_zeros() {
    assert_eq!(md5_digest_hex([0; 16]), "0");
    let mut digest = [0u8; 16];
    digest[1] = 0x0a;
    digest[15] = 0xff;
    assert_eq!(md5_digest_hex(digest), "a00000000000000000000000000ff");
}

#[test]
fn errno_messages() {
    let mut buf = [0u8; 128];
    buf[..25].copy_from_slice(b"No such file or directory");
    assert_eq!(errno_err_msg(0, &buf), Ok("No such file or directory".to_string()));
    assert_eq!(errno_err_msg(22, &buf), Err(ErrnoError::InvalidInput));
}

#[test]
fn c_strings_end_at_the_first_nul() {
    assert_eq!(c_str_bytes(b"/home/w\0/tmp\0"), b"/home/w".to_vec());
    assert_eq!(c_str_bytes(b"\0abc"), Vec::<u8>::new());
    assert_eq!(c_str_to_string(b"/home/w\0\0\0"), "/home/w");
    assert_eq!(c_str_to_string("héllo\0".as_bytes()), "héllo");
    assert_eq!(NAME_MAX, 256);
}

#[test]
fn usage_lines_name_the_executable() {
    assert_eq!(usage_line("./target/debug/host", "$hostname"), "usage: host $hostname");
    assert_eq!(usage_line("host", "$hostname"), "usage: host $hostname");
    assert_eq!(usage_line("/usr/bin/", "x"), "usage:  x");
}

#[test]
fn file_types_by_mode() {
    assert_eq!(get_filetype(0o100644), "regular file");
    assert_eq!(get_filetype(0o040755), "directory");
    assert_eq!(get_filetype(0o120777), "symbolic link");
    assert_eq!(get_filetype(0o010644), "FIFO");
    assert_eq!(get_filetype(0o020620), "character device");
    assert_eq!(get_filetype(0o060660), "block device");
    assert_eq!(get_filetype(0o140777), "socket");
}

#[test]
fn stat_size_line() {
    assert_eq!(
        size_line(1234, 8, 4096, "regular file"),
        "  Size: 1234            Blocks: 8          IO Block: 4096   regular file"
    );
    assert_eq!(
        size_line(123456789012345678, 0, 1234567, "socket"),
        "  Size: 123456789012345678 Blocks: 0          IO Block: 1234567 socket"
    );
}

#[test]
fn tree_skips_dot_entries() {
    assert!(is_dot_entry("."));
    assert!(is_dot_entry(".."));
    assert!(!is_dot_entry(".git"));
    assert!(!is_dot_entry(""));
    assert!(!is_dot_entry("..."));
}

#[test]
fn tree_descends_into_directories_only() {
    assert!(is_directory(0o040755));
    assert!(!is_directory(0o100644));
    assert!(!is_directory(0o120777));
    assert!(!is_directory(0o060660));
    assert_eq!(INDENT_STEP, 4);
    assert_eq!(child_indent(0), 4);
    assert_eq!(child_indent(8), 12);
}

#[test]
fn tree_lines_are_indented_and_mark_directories() {
    assert_eq!(tree_line(0, "src", true), "src/");
    assert_eq!(tree_line(4, "main.rs", false), "    main.rs");
}

#[test]
fn chmod_reads_three_octal_digits() {
    assert_eq!(permission_bits(b"777"), 0o777);
    assert_eq!(permission_bits(b"644"), 0o644);
    assert_eq!(permission_bits(b"0701"), 0o070);
}

#[test]
fn tree_walk_steps() {
    assert_eq!(walk_step(None, None), WalkAction::Return);
    assert_eq!(walk_step(Some("."), None), WalkAction::Skip);
    assert_eq!(walk_step(Some(".."), Some(true)), WalkAction::Skip);
    assert_eq!(walk_step(Some("src"), None), WalkAction::Inspect);
    assert_eq!(walk_step(Some("src"), Some(true)), WalkAction::ShowAndDescend);
    assert_eq!(walk_step(Some("main.rs"), Some(false)), WalkAction::Show);
    assert_eq!(walk_step(Some(".git"), Some(true)), WalkAction::ShowAndDescend);
}
