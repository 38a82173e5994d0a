# linux_programming

Small Linux system programming tools (`stat`, `tree`, `chmod`, `ping`, `host`, `id`,
`pwd`, ...) and database adapters over one user table, with their logic verified by Verus.

- `src/` is the verified library: the parsers of `/etc/fstab` and `/proc/net/route`,
  the ICMP checksum, the user record layout and the in-memory user table, the SQL the
  MySQL adapter sends, C string and errno message handling, time stamp formatting, and
  the text each tool prints. Every public function states its result in `ensures`.
- `app/` is ordinary Rust around it: system calls, the C libraries (gdbm, mysqlclient,
  OpenSSL's MD5, `strftime`), reading files and printing.
- `tests/` runs the library on concrete values.
