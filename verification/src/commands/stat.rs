//! `stat`: the kind of a file from its mode, and the size line.
use crate::text::{push_char, push_signed_decimal, push_str, signed_decimal};
use vstd::prelude::*;

verus! {

/// The file type field of `st_mode` and the values it takes, as `sys/stat.h` defines them.
pub struct FileTypeBits {
    pub mask: u32,
    pub fifo: u32,
    pub character_device: u32,
    pub directory: u32,
    pub block_device: u32,
    pub regular: u32,
    pub symbolic_link: u32,
    pub socket: u32,
}

/// The values of `S_IFMT` and the `S_IF*` file types on Linux.
pub open spec fn linux_file_type_bits() -> FileTypeBits {
    FileTypeBits {
        mask: 0o170000,
        fifo: 0o010000,
        character_device: 0o020000,
        directory: 0o040000,
        block_device: 0o060000,
        regular: 0o100000,
        symbolic_link: 0o120000,
        socket: 0o140000,
    }
}

/// `S_IFMT`, `S_IFIFO`, `S_IFCHR`, `S_IFDIR`, `S_IFBLK`, `S_IFREG`, `S_IFLNK` and
/// `S_IFSOCK` of the `libc` crate.
#[verifier::external_body]
pub(crate) fn file_type_bits() -> (bits: FileTypeBits)
    ensures
        bits == linux_file_type_bits(),
{
    FileTypeBits {
        mask: libc::S_IFMT,
        fifo: libc::S_IFIFO,
        character_device: libc::S_IFCHR,
        directory: libc::S_IFDIR,
        block_device: libc::S_IFBLK,
        regular: libc::S_IFREG,
        symbolic_link: libc::S_IFLNK,
        socket: libc::S_IFSOCK,
    }
}

/// The file type field of a mode.
pub open spec fn file_type(st_mode: u32) -> u32 {
    st_mode & 0o170000u32
}

/// The name of a file type, or nothing for a value that is none of the seven.
pub open spec fn file_type_name(file_type: u32) -> Option<Seq<char>> {
    if file_type == 0o010000 {
        Some("FIFO"@)
    } else if file_type == 0o020000 {
        Some("character device"@)
    } else if file_type == 0o040000 {
        Some("directory"@)
    } else if file_type == 0o060000 {
        Some("block device"@)
    } else if file_type == 0o100000 {
        Some("regular file"@)
    } else if file_type == 0o120000 {
        Some("symbolic link"@)
    } else if file_type == 0o140000 {
        Some("socket"@)
    } else {
        None
    }
}

/// The kind of file a mode describes: FIFO, character device, directory, block device,
/// regular file, symbolic link or socket.
pub fn get_filetype(st_mode: u32) -> (name: &'static str)
    requires
        file_type_name(file_type(st_mode)) is Some,
    ensures
        file_type_name(file_type(st_mode)) == Some(name@),
{
    let bits = file_type_bits();
    let filetype_mask = st_mode & bits.mask;
    if filetype_mask == bits.fifo {
        "FIFO"
    } else if filetype_mask == bits.character_device {
        "character device"
    } else if filetype_mask == bits.directory {
        "directory"
    } else if filetype_mask == bits.block_device {
        "block device"
    } else if filetype_mask == bits.regular {
        "regular file"
    } else if filetype_mask == bits.symbolic_link {
        "symbolic link"
    } else {
        "socket"
    }
}

/// `s` followed by spaces up to `width` characters (`{:<width}`).
pub open spec fn pad_right(s: Seq<char>, width: nat) -> Seq<char> {
    if s.len() >= width {
        s
    } else {
        s + Seq::new((width - s.len()) as nat, |i: int| ' ')
    }
}

fn push_padded_decimal(line: &mut String, n: i64, width: usize)
    ensures
        final(line)@ == old(line)@ + pad_right(signed_decimal(n as int), width as nat),
{
    let mut digits = String::new();
    push_signed_decimal(&mut digits, n);
    let len = digits.as_str().unicode_len();
    push_str(line, digits.as_str());
    let mut i = len;
    while i < width
        invariant
            len <= i,
            len == signed_decimal(n as int).len(),
            i <= width || i == len,
            line@ == old(line)@ + signed_decimal(n as int) + Seq::new((i - len) as nat, |k: int| ' '),
        decreases width - i,
    {
        push_char(line, ' ');
        i = i + 1;
        assert(line@ =~= old(line)@ + signed_decimal(n as int) + Seq::new((i - len) as nat, |k: int| ' '));
    }
    assert(line@ =~= old(line)@ + pad_right(signed_decimal(n as int), width as nat));
}

/// The size line of `stat`: size, blocks and I/O block size left-aligned in columns of
/// 15, 10 and 6 characters, then the file type.
pub fn size_line(st_size: i64, st_blocks: i64, st_blksize: i64, filetype: &str) -> (line: String)
    ensures
        line@ == "  Size: "@ + pad_right(signed_decimal(st_size as int), 15) + " Blocks: "@
            + pad_right(signed_decimal(st_blocks as int), 10) + " IO Block: "@ + pad_right(
            signed_decimal(st_blksize as int),
            6,
        ) + " "@ + filetype@,
{
    let mut line = String::new();
    push_str(&mut line, "  Size: ");
    push_padded_decimal(&mut line, st_size, 15);
    push_str(&mut line, " Blocks: ");
    push_padded_decimal(&mut line, st_blocks, 10);
    push_str(&mut line, " IO Block: ");
    push_padded_decimal(&mut line, st_blksize, 6);
    push_str(&mut line, " ");
    push_str(&mut line, filetype);
    assert(line@ =~= "  Size: "@ + pad_right(signed_decimal(st_size as int), 15) + " Blocks: "@
        + pad_right(signed_decimal(st_blocks as int), 10) + " IO Block: "@ + pad_right(
        signed_decimal(st_blksize as int),
        6,
    ) + " "@ + filetype@);
    line
}

/// The kind of a file lies in the `S_IFMT` bits alone: the permission bits and the setuid,
/// setgid and sticky bits (`0o7777`) never change it, and each of the seven kinds keeps its
/// name whatever those bits hold (`/tmp`, `0o041777`, is a directory). A mode with no kind
/// bits names no kind.
pub proof fn law_file_type_ignores_permission_bits(st_mode: u32, bits: u32)
    requires
        bits <= 0o7777,
    ensures
        file_type(st_mode | bits) == file_type(st_mode),
        file_type(st_mode & !bits) == file_type(st_mode),
        file_type(st_mode) & 0o7777 == 0,
        file_type(st_mode) <= 0o170000,
        file_type(0o040000u32 | bits) == 0o040000,
        file_type_name(file_type(0o040000u32 | bits)) == Some("directory"@),
        file_type_name(file_type(0o010000u32 | bits)) == Some("FIFO"@),
        file_type_name(file_type(0o020000u32 | bits)) == Some("character device"@),
        file_type_name(file_type(0o060000u32 | bits)) == Some("block device"@),
        file_type_name(file_type(0o100000u32 | bits)) == Some("regular file"@),
        file_type_name(file_type(0o120000u32 | bits)) == Some("symbolic link"@),
        file_type_name(file_type(0o140000u32 | bits)) == Some("socket"@),
        file_type_name(file_type(bits)) is None,
{
    assert((0o010000u32 | bits) & 0o170000u32 == 0o010000u32) by (bit_vector)
        requires
            bits <= 0o7777,
    ;
    assert((0o020000u32 | bits) & 0o170000u32 == 0o020000u32) by (bit_vector)
        requires
            bits <= 0o7777,
    ;
    assert((0o060000u32 | bits) & 0o170000u32 == 0o060000u32) by (bit_vector)
        requires
            bits <= 0o7777,
    ;
    assert((0o100000u32 | bits) & 0o170000u32 == 0o100000u32) by (bit_vector)
        requires
            bits <= 0o7777,
    ;
    assert((0o120000u32 | bits) & 0o170000u32 == 0o120000u32) by (bit_vector)
        requires
            bits <= 0o7777,
    ;
    assert((0o140000u32 | bits) & 0o170000u32 == 0o140000u32) by (bit_vector)
        requires
            bits <= 0o7777,
    ;
    assert(bits & 0o170000u32 == 0) by (bit_vector)
        requires
            bits <= 0o7777,
    ;
    assert((st_mode | bits) & 0o170000u32 == st_mode & 0o170000u32) by (bit_vector)
        requires
            bits <= 0o7777,
    ;
    assert((st_mode & !bits) & 0o170000u32 == st_mode & 0o170000u32) by (bit_vector)
        requires
            bits <= 0o7777,
    ;
    assert((st_mode & 0o170000u32) & 0o7777u32 == 0) by (bit_vector);
    assert(st_mode & 0o170000u32 <= 0o170000u32) by (bit_vector);
    assert((0o040000u32 | bits) & 0o170000u32 == 0o040000u32) by (bit_vector)
        requires
            bits <= 0o7777,
    ;
}

} // verus!
