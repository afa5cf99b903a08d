//! The archive entry encoder: reproducible tape-archive entries for blobs,
//! files, symlinks and directories.

use vstd::prelude::*;

verus! {

/// `tar::Header`, one header block; its bytes are known as `header_block`.
#[verifier::external_type_specification]
#[verifier::external_body]
pub struct ExHeader(tar::Header);

/// `std::io::Error`, the reason a path was rejected; carried, never read.
#[verifier::external_type_specification]
#[verifier::external_body]
pub struct ExIoError(std::io::Error);

/// The 512 bytes of a header block, as `tar::Header::as_bytes` hands them
/// out.
pub uninterp spec fn header_block(h: tar::Header) -> Seq<u8>;

/// The name field that `tar::Header::set_path` writes into a GNU header
/// whose name field is blank, or `None` where it rejects the path (too long
/// for the field, absolute, with a `..` component or a NUL byte, or empty).
/// Paths are read as on Unix: `/` alone separates components, and the bytes
/// of a component go into the field as they are.
pub uninterp spec fn path_field(path: Seq<char>) -> Option<Seq<u8>>;

/// Size of a header block, and the unit that payloads are padded to.
pub const BLOCK: usize = 512;

/// Offset of the name field, which is `name_width()` bytes wide.
pub open spec fn name_at() -> int { 0 }

/// Width of the name field.
pub open spec fn name_width() -> int { 100 }

/// Offset of the mode field, 8 bytes wide.
pub open spec fn mode_at() -> int { 100 }

/// Offset of the size field, 12 bytes wide.
pub open spec fn size_at() -> int { 124 }

/// Offset of the time field, 12 bytes wide.
pub open spec fn mtime_at() -> int { 136 }

/// Offset of the checksum field, 8 bytes wide.
pub open spec fn cksum_at() -> int { 148 }

/// Offset of the type tag, one byte.
pub open spec fn kind_at() -> int { 156 }

/// `block` with the `width` bytes from `at` on taken from `field`.
pub open spec fn put(block: Seq<u8>, at: int, width: int, field: Seq<u8>) -> Seq<u8> {
    Seq::new(block.len(), |i: int| if at <= i < at + width { field[i - at] } else { block[i] })
}

/// The `k`th power of 8.
pub open spec fn pow8(k: nat) -> int
    decreases k,
{
    if k == 0 { 1 } else { 8 * pow8((k - 1) as nat) }
}

/// The octal digit of weight `8^k` of `val`, as an ASCII byte.
pub open spec fn octal_digit(val: int, k: int) -> u8 {
    (48 + (val / pow8(k as nat)) % 8) as u8
}

/// A numeric field of `width` bytes in octal: `width - 1` digits, the one of
/// least weight last, zero padded on the left, then a NUL. Digits that do
/// not fit are dropped from the left.
pub open spec fn octal_field(val: int, width: int) -> Seq<u8> {
    Seq::new(
        width as nat,
        |i: int| if i == width - 1 { 0u8 } else { octal_digit(val, width - 2 - i) },
    )
}

/// The number that the first `n` bytes of an octal field spell.
pub open spec fn octal_value(field: Seq<u8>, n: int) -> int
    decreases n,
{
    if n <= 0 { 0 } else { 8 * octal_value(field, n - 1) + (field[n - 1] as int - 48) }
}

/// A numeric field of 12 bytes in the binary extension: the marker byte
/// `0x80`, three zero bytes, then the value in eight bytes, big end first.
pub open spec fn binary_field(val: u64) -> Seq<u8> {
    Seq::new(
        12,
        |i: int| if i == 0 { 0x80u8 } else if i < 4 { 0u8 } else {
            ((val >> ((8 * (11 - i)) as u64)) & 0xff) as u8
        },
    )
}

/// The 12 byte field of a size or a time: octal while eleven digits hold the
/// value, binary from `8^11` on.
pub open spec fn number_field(val: u64) -> Seq<u8> {
    if val >= 8589934592 { binary_field(val) } else { octal_field(val as int, 12) }
}

/// A blank GNU header: zero bytes but for the magic `"ustar "`, the version
/// `" \0"`, and a time of 0.
pub open spec fn blank_gnu() -> Seq<u8> {
    let zero = Seq::new(512, |i: int| 0u8);
    let magic = put(zero, 257, 6, seq![0x75u8, 0x73u8, 0x74u8, 0x61u8, 0x72u8, 0x20u8]);
    let version = put(magic, 263, 2, seq![0x20u8, 0u8]);
    put(version, mtime_at(), 12, octal_field(0, 12))
}

/// The sum of the first `n` bytes.
pub open spec fn byte_sum(bytes: Seq<u8>, n: int) -> int
    decreases n,
{
    if n <= 0 { 0 } else { byte_sum(bytes, n - 1) + bytes[n - 1] as int }
}

/// The checksum of a header block: the sum of its bytes, the checksum field
/// itself counted as eight spaces.
pub open spec fn checksum(block: Seq<u8>) -> int {
    byte_sum(put(block, cksum_at(), 8, Seq::new(8, |i: int| 0x20u8)), 512)
}

/// `block` with its checksum field filled in.
pub open spec fn sealed(block: Seq<u8>) -> Seq<u8> {
    put(block, cksum_at(), 8, octal_field(checksum(block), 8))
}

/// The type of an archive entry.
#[derive(Debug, Clone, Copy, PartialEq, Eq, Structural)]
pub enum EntryKind {
    Regular,
    Symlink,
    Directory,
    LongLink,
}

/// The tag byte that stands for an entry type in a header.
pub open spec fn kind_byte(kind: EntryKind) -> u8 {
    match kind {
        EntryKind::Regular => 0x30u8,
        EntryKind::Symlink => 0x32u8,
        EntryKind::Directory => 0x35u8,
        EntryKind::LongLink => 0x4bu8,
    }
}

/// `tar::Header::new_gnu`. Trusted: the new header is the blank GNU block.
#[verifier::external_body]
fn new_gnu() -> (h: tar::Header)
    ensures
        header_block(h) == blank_gnu(),
{
    tar::Header::new_gnu()
}

/// `tar::Header::set_path` on a GNU header. Trusted: on a header whose name
/// field is blank, success writes the name field that belongs to the path and
/// nothing else, and the path alone decides between success and failure.
#[verifier::external_body]
fn set_path(h: &mut tar::Header, path: &str) -> (r: Result<(), std::io::Error>)
    requires
        header_block(*old(h)).len() == 512,
        header_block(*old(h)).subrange(257, 265) == blank_gnu().subrange(257, 265),
        forall|i: int| 0 <= i < 100 ==> header_block(*old(h))[i] == 0,
    ensures
        r is Ok <==> path_field(path@) is Some,
        r is Ok ==> header_block(*final(h)) == put(
            header_block(*old(h)),
            name_at(),
            name_width(),
            path_field(path@).unwrap(),
        ),
{
    h.set_path(path)
}

/// `tar::Header::set_mtime`. Trusted: it writes the time field, 12 bytes at
/// offset 136.
#[verifier::external_body]
fn set_mtime(h: &mut tar::Header, mtime: u64)
    ensures
        header_block(*final(h)) == put(header_block(*old(h)), mtime_at(), 12, number_field(mtime)),
{
    h.set_mtime(mtime)
}

/// `tar::Header::set_size`. Trusted: it writes the size field, 12 bytes at
/// offset 124.
#[verifier::external_body]
fn set_size(h: &mut tar::Header, size: u64)
    ensures
        header_block(*final(h)) == put(header_block(*old(h)), size_at(), 12, number_field(size)),
{
    h.set_size(size)
}

/// `tar::Header::set_mode`. Trusted: it writes the mode field, 8 bytes at
/// offset 100, in octal.
#[verifier::external_body]
fn set_mode(h: &mut tar::Header, mode: u32)
    ensures
        header_block(*final(h)) == put(
            header_block(*old(h)),
            mode_at(),
            8,
            octal_field(mode as int, 8),
        ),
{
    h.set_mode(mode)
}

/// `tar::Header::set_entry_type`. Trusted: it writes the tag byte of the
/// type at offset 156.
#[verifier::external_body]
fn set_entry_type(h: &mut tar::Header, kind: EntryKind)
    ensures
        header_block(*final(h)) == put(header_block(*old(h)), kind_at(), 1, seq![kind_byte(kind)]),
{
    h.set_entry_type(
        match kind {
            EntryKind::Regular => tar::EntryType::Regular,
            EntryKind::Symlink => tar::EntryType::Symlink,
            EntryKind::Directory => tar::EntryType::Directory,
            EntryKind::LongLink => tar::EntryType::GNULongLink,
        },
    )
}

/// `tar::Header::set_cksum`. Trusted: it writes the checksum of the block,
/// in octal, into the 8 bytes at offset 148.
#[verifier::external_body]
fn set_cksum(h: &mut tar::Header)
    ensures
        header_block(*final(h)) == sealed(header_block(*old(h))),
{
    h.set_cksum()
}

/// `tar::Header::as_bytes`. Trusted: it hands out the block.
#[verifier::external_body]
fn as_bytes(h: &tar::Header) -> (r: Vec<u8>)
    ensures
        r@ == header_block(*h),
{
    h.as_bytes().to_vec()
}

/// The header of an entry before the checksum is set: the blank GNU block
/// with the name and, in the order of the parameters, whichever of time,
/// type, size and mode the entry sets.
pub open spec fn header_fields(
    name: Seq<u8>,
    mtime: Option<u32>,
    kind: Option<EntryKind>,
    size: u64,
    mode: Option<u32>,
) -> Seq<u8> {
    let named = put(blank_gnu(), name_at(), name_width(), name);
    let timed = match mtime {
        Some(t) => put(named, mtime_at(), 12, number_field(t as u64)),
        None => named,
    };
    let typed = match kind {
        Some(k) => put(timed, kind_at(), 1, seq![kind_byte(k)]),
        None => timed,
    };
    let sized = put(typed, size_at(), 12, number_field(size));
    match mode {
        Some(m) => put(sized, mode_at(), 8, octal_field(m as int, 8)),
        None => sized,
    }
}

/// The zero bytes that fill a payload of `len` bytes up to the next block.
pub open spec fn padding(len: int) -> Seq<u8> {
    Seq::new(((512 - len % 512) % 512) as nat, |i: int| 0u8)
}

/// One archive entry: the sealed header, the payload, the padding.
pub open spec fn entry(header: Seq<u8>, payload: Seq<u8>) -> Seq<u8> {
    sealed(header) + payload + padding(payload.len() as int)
}

/// The mode of synthetic content: `rw-r--r--`.
pub const BLOB_MODE: u32 = 0o644;

/// The entry of an in-memory blob: a header without a type tag, which reads
/// as a regular file, with the fixed mode.
pub open spec fn blob_entry(name: Seq<u8>, mtime: u32, data: Seq<u8>) -> Seq<u8> {
    entry(header_fields(name, Some(mtime), None, data.len() as u64, Some(BLOB_MODE)), data)
}

/// The permission bits of a file mode: the mode without the bits that tell
/// the type of the file.
pub open spec fn permission_bits(mode: u32) -> u32 {
    mode & 0o7777
}

/// What was found at a path, without following a final symlink, and what
/// was read from it.
#[derive(Debug)]
pub enum FileObject {
    Regular { mode: u32, content: Vec<u8> },
    Symlink { mode: u32, target: Vec<u8> },
    Directory { mode: u32 },
    Other,
}

/// The entries of a filesystem object.
///
/// A regular file gives one entry with its permission bits and content; a
/// directory one without payload. A symlink always gives two: a long-link
/// entry, without a mode, whose payload is the target, and then the symlink
/// entry itself. Every header carries the time given. Anything else gives
/// nothing.
pub open spec fn file_entries(name: Seq<u8>, mtime: u32, object: FileObject) -> Seq<u8> {
    match object {
        FileObject::Regular { mode, content } => entry(
            header_fields(
                name,
                Some(mtime),
                Some(EntryKind::Regular),
                content@.len() as u64,
                Some(permission_bits(mode)),
            ),
            content@,
        ),
        FileObject::Symlink { mode, target } => entry(
            header_fields(
                name,
                Some(mtime),
                Some(EntryKind::LongLink),
                target@.len() as u64,
                None,
            ),
            target@,
        ) + entry(
            header_fields(
                name,
                Some(mtime),
                Some(EntryKind::Symlink),
                0,
                Some(permission_bits(mode)),
            ),
            Seq::<u8>::empty(),
        ),
        FileObject::Directory { mode } => entry(
            header_fields(
                name,
                Some(mtime),
                Some(EntryKind::Directory),
                0,
                Some(permission_bits(mode)),
            ),
            Seq::<u8>::empty(),
        ),
        FileObject::Other => Seq::<u8>::empty(),
    }
}

/// The archive cannot name an entry by this path.
#[derive(Debug, Clone, Copy, PartialEq, Eq, Structural)]
pub struct PathRejected;

/// A blank GNU header named `path`.
fn named_header(path: &str) -> (r: Result<tar::Header, PathRejected>)
    ensures
        r is Ok <==> path_field(path@) is Some,
        r is Ok ==> header_block(r.unwrap()) == put(
            blank_gnu(),
            name_at(),
            name_width(),
            path_field(path@).unwrap(),
        ),
{
    let mut head = new_gnu();
    match set_path(&mut head, path) {
        Ok(()) => Ok(head),
        Err(_) => Err(PathRejected),
    }
}

/// Seals `head` and appends it with its payload, padded to whole blocks.
fn append_entry(out: &mut Vec<u8>, head: tar::Header, payload: &[u8])
    ensures
        final(out)@ == old(out)@ + entry(header_block(head), payload@),
{
    let mut head = head;
    set_cksum(&mut head);
    let block = as_bytes(&head);
    let ghost before = out@;
    out.extend_from_slice(block.as_slice());
    out.extend_from_slice(payload);
    assert(out@ =~= before + block@ + payload@);
    let rest = payload.len() % BLOCK;
    if rest != 0 {
        let fill = BLOCK - rest;
        let ghost unpadded = out@;
        let mut i: usize = 0;
        while i < fill
            invariant
                i <= fill,
                out@ == unpadded + Seq::new(i as nat, |j: int| 0u8),
            decreases fill - i,
        {
            out.push(0u8);
            i += 1;
            assert(out@ =~= unpadded + Seq::new(i as nat, |j: int| 0u8));
        }
        assert(padding(payload@.len() as int) =~= Seq::new(fill as nat, |j: int| 0u8));
    } else {
        assert(padding(payload@.len() as int) =~= Seq::<u8>::empty());
        assert(out@ =~= before + block@ + payload@ + Seq::<u8>::empty());
    }
    assert(out@ =~= before + (block@ + payload@ + padding(payload@.len() as int)));
}

/// Appending archive entries to a byte sink.
pub trait ArchiveExt {
    /// The bytes written so far.
    spec fn written(&self) -> Seq<u8>;

    /// Appends one entry for in-memory content under the fixed mode
    /// `rw-r--r--`. Fails, writing nothing, exactly when the name is
    /// rejected.
    fn append_blob(&mut self, name: &str, mtime: u32, data: &[u8]) -> (r: Result<(), PathRejected>)
        ensures
            r is Ok <==> path_field(name@) is Some,
            r is Ok ==> final(self).written() == old(self).written() + blob_entry(
                path_field(name@).unwrap(),
                mtime,
                data@,
            ),
            r is Err ==> final(self).written() == old(self).written(),
    ;

    /// Appends the entries of the filesystem object found at `path`, under
    /// the name `path`. An object that is neither file, symlink nor
    /// directory is passed over: the call succeeds and writes nothing. For
    /// the others it fails, writing nothing, exactly when the path is
    /// rejected.
    fn append_file_at(&mut self, path: &str, mtime: u32, object: &FileObject) -> (r: Result<
        (),
        PathRejected,
    >)
        ensures
            r is Ok <==> *object is Other || path_field(path@) is Some,
            *object is Other ==> final(self).written() == old(self).written(),
            r is Ok ==> final(self).written() == old(self).written() + file_entries(
                path_field(path@).unwrap(),
                mtime,
                *object,
            ),
            r is Err ==> final(self).written() == old(self).written(),
    ;
}

impl ArchiveExt for Vec<u8> {
    open spec fn written(&self) -> Seq<u8> {
        self@
    }

    fn append_blob(&mut self, name: &str, mtime: u32, data: &[u8]) -> (r: Result<(), PathRejected>) {
        let mut head = match named_header(name) {
            Ok(h) => h,
            Err(e) => {
                return Err(e);
            },
        };
        set_mtime(&mut head, mtime as u64);
        set_size(&mut head, data.len() as u64);
        set_mode(&mut head, BLOB_MODE);
        append_entry(self, head, data);
        Ok(())
    }

    fn append_file_at(&mut self, path: &str, mtime: u32, object: &FileObject) -> (r: Result<
        (),
        PathRejected,
    >) {
        let ghost before = self@;
        if let FileObject::Other = object {
            assert(self@ =~= before + Seq::<u8>::empty());
            return Ok(());
        }
        let mut head = match named_header(path) {
            Ok(h) => h,
            Err(e) => {
                return Err(e);
            },
        };
        set_mtime(&mut head, mtime as u64);
        let empty: Vec<u8> = Vec::new();
        match object {
            FileObject::Regular { mode, content } => {
                set_entry_type(&mut head, EntryKind::Regular);
                set_size(&mut head, content.len() as u64);
                set_mode(&mut head, *mode & 0o7777);
                append_entry(self, head, content.as_slice());
            },
            FileObject::Symlink { mode, target } => {
                let mut longlink = match named_header(path) {
                    Ok(h) => h,
                    Err(e) => {
                        return Err(e);
                    },
                };
                set_mtime(&mut longlink, mtime as u64);
                set_entry_type(&mut longlink, EntryKind::LongLink);
                set_size(&mut longlink, target.len() as u64);
                append_entry(self, longlink, target.as_slice());
                set_entry_type(&mut head, EntryKind::Symlink);
                set_size(&mut head, 0);
                set_mode(&mut head, *mode & 0o7777);
                append_entry(self, head, empty.as_slice());
                assert(self@ =~= before + file_entries(path_field(path@).unwrap(), mtime, *object));
            },
            FileObject::Directory { mode } => {
                set_entry_type(&mut head, EntryKind::Directory);
                set_size(&mut head, 0);
                set_mode(&mut head, *mode & 0o7777);
                append_entry(self, head, empty.as_slice());
            },
            FileObject::Other => {},
        }
        Ok(())
    }
}

/// Encoding is reproducible: two sinks that took a blob with the same name,
/// time and content took the same bytes, and sinks that were equal before
/// are equal after.
pub proof fn lemma_blob_reproducible(
    first_before: Seq<u8>,
    first_after: Seq<u8>,
    second_before: Seq<u8>,
    second_after: Seq<u8>,
    name: Seq<char>,
    mtime: u32,
    data: Seq<u8>,
)
    requires
        path_field(name) is Some,
        first_after == first_before + blob_entry(path_field(name).unwrap(), mtime, data),
        second_after == second_before + blob_entry(path_field(name).unwrap(), mtime, data),
    ensures
        first_after.subrange(first_before.len() as int, first_after.len() as int)
            == second_after.subrange(second_before.len() as int, second_after.len() as int),
        first_before == second_before ==> first_after == second_after,
{
    let e = blob_entry(path_field(name).unwrap(), mtime, data);
    assert(first_after.subrange(first_before.len() as int, first_after.len() as int) =~= e);
    assert(second_after.subrange(second_before.len() as int, second_after.len() as int) =~= e);
}

/// An entry is a whole number of blocks: the header, then the payload from
/// byte 512 on, then zero bytes up to the next block.
pub proof fn lemma_entry_layout(header: Seq<u8>, payload: Seq<u8>)
    requires
        header.len() == 512,
    ensures
        entry(header, payload).len() % 512 == 0,
        entry(header, payload).len() >= 512 + payload.len(),
        entry(header, payload).len() < 1024 + payload.len(),
        entry(header, payload).subrange(0, 512) == sealed(header),
        entry(header, payload).subrange(512, 512 + payload.len() as int) == payload,
{
    let e = entry(header, payload);
    let len = payload.len() as int;
    assert((512 + len + (512 - len % 512) % 512) % 512 == 0);
    assert(e.subrange(0, 512) =~= sealed(header));
    assert(e.subrange(512, 512 + len) =~= payload);
}

/// The header of a regular file holds what was read: the mode field is the
/// octal text of the permission bits, the size field that of the content's
/// length, the
/// time field that of the time given, the tag is that of a regular file, and
/// the payload is the content, byte for byte.
pub proof fn lemma_regular_file(name: Seq<u8>, mtime: u32, mode: u32, content: Vec<u8>)
    requires
        content@.len() <= u64::MAX,
    ensures
        ({
            let e = file_entries(name, mtime, FileObject::Regular { mode, content });
            &&& e.subrange(mode_at(), mode_at() + 8) == octal_field(
                permission_bits(mode) as int,
                8,
            )
            &&& e.subrange(size_at(), size_at() + 12) == number_field(content@.len() as u64)
            &&& e.subrange(mtime_at(), mtime_at() + 12) == octal_field(mtime as int, 12)
            &&& e[kind_at()] == kind_byte(EntryKind::Regular)
            &&& e.subrange(512, 512 + content@.len() as int) == content@
        }),
{
    let header = header_fields(
        name,
        Some(mtime),
        Some(EntryKind::Regular),
        content@.len() as u64,
        Some(permission_bits(mode)),
    );
    let e = file_entries(name, mtime, FileObject::Regular { mode, content });
    lemma_entry_layout(header, content@);
    assert(e.subrange(mode_at(), mode_at() + 8) =~= octal_field(
        permission_bits(mode) as int,
        8,
    ));
    assert(e.subrange(size_at(), size_at() + 12) =~= number_field(content@.len() as u64));
    assert(e.subrange(mtime_at(), mtime_at() + 12) =~= octal_field(mtime as int, 12));
}

/// A symlink's target is kept whole, however long it is: the first of its
/// two entries is tagged as a long link, its size field is the octal or
/// binary text of the target's length and its payload is the target, byte
/// for byte; the entry that follows it, at the next block boundary, is
/// tagged as a symlink, holds the permission bits and has no payload. Both
/// headers carry the time given.
pub proof fn lemma_symlink_target(name: Seq<u8>, mtime: u32, mode: u32, target: Vec<u8>)
    requires
        target@.len() <= u64::MAX,
    ensures
        ({
            let e = file_entries(name, mtime, FileObject::Symlink { mode, target });
            let len = target@.len() as int;
            let next = 512 + len + (512 - len % 512) % 512;
            &&& e[kind_at()] == kind_byte(EntryKind::LongLink)
            &&& e.subrange(mtime_at(), mtime_at() + 12) == octal_field(mtime as int, 12)
            &&& e.subrange(size_at(), size_at() + 12) == number_field(target@.len() as u64)
            &&& e.subrange(512, 512 + len) == target@
            &&& e.len() == next + 512
            &&& e[next + kind_at()] == kind_byte(EntryKind::Symlink)
            &&& e.subrange(next + mtime_at(), next + mtime_at() + 12) == octal_field(
                mtime as int,
                12,
            )
            &&& e.subrange(next + mode_at(), next + mode_at() + 8) == octal_field(
                permission_bits(mode) as int,
                8,
            )
        }),
{
    let long = header_fields(
        name,
        Some(mtime),
        Some(EntryKind::LongLink),
        target@.len() as u64,
        None,
    );
    let link = header_fields(
        name,
        Some(mtime),
        Some(EntryKind::Symlink),
        0,
        Some(permission_bits(mode)),
    );
    let e = file_entries(name, mtime, FileObject::Symlink { mode, target });
    let len = target@.len() as int;
    let next = 512 + len + (512 - len % 512) % 512;
    lemma_entry_layout(long, target@);
    lemma_entry_layout(link, Seq::<u8>::empty());
    let first = entry(long, target@);
    let second = entry(link, Seq::<u8>::empty());
    assert(first.len() == next);
    assert(second.len() == 512);
    assert(e == first + second);
    assert(e.subrange(size_at(), size_at() + 12) =~= number_field(target@.len() as u64));
    assert(e.subrange(512, 512 + len) =~= target@);
    assert(e[next + kind_at()] == second[kind_at()]);
    assert(e.subrange(mtime_at(), mtime_at() + 12) =~= octal_field(mtime as int, 12));
    assert(e.subrange(next + mtime_at(), next + mtime_at() + 12) =~= octal_field(
        mtime as int,
        12,
    ));
    assert(e.subrange(next + mode_at(), next + mode_at() + 8) =~= octal_field(
        permission_bits(mode) as int,
        8,
    ));
}

/// Powers of 8 are positive.
pub proof fn lemma_pow8_positive(k: nat)
    ensures
        pow8(k) > 0,
    decreases k,
{
    if k > 0 {
        lemma_pow8_positive((k - 1) as nat);
    }
}

/// The first `n` digits of an octal field spell the value without its last
/// `width - 1 - n` digits.
pub proof fn lemma_octal_prefix(val: int, width: int, n: int)
    requires
        0 <= val < pow8((width - 1) as nat),
        0 <= n <= width - 1,
    ensures
        octal_value(octal_field(val, width), n) == val / pow8((width - 1 - n) as nat),
    decreases n,
{
    let field = octal_field(val, width);
    lemma_pow8_positive((width - 1 - n) as nat);
    if n == 0 {
        vstd::arithmetic::div_mod::lemma_basic_div(val, pow8((width - 1) as nat));
    } else {
        lemma_octal_prefix(val, width, n - 1);
        let a = pow8((width - 1 - n) as nat);
        let q = val / a;
        assert(pow8((width - n) as nat) == 8 * a);
        vstd::arithmetic::div_mod::lemma_div_denominator(val, a, 8);
        assert(a * 8 == 8 * a);
        assert(q / 8 == val / (8 * a));
        vstd::arithmetic::div_mod::lemma_fundamental_div_mod(q, 8);
        vstd::arithmetic::div_mod::lemma_mod_bound(q, 8);
        assert(field[n - 1] == octal_digit(val, width - 1 - n));
        assert(field[n - 1] as int - 48 == q % 8);
    }
}

/// Reading an octal field gives back the number that was written, as long as
/// the number fits the digits of the field.
pub proof fn lemma_octal_round_trip(val: int, width: int)
    requires
        width >= 1,
        0 <= val < pow8((width - 1) as nat),
    ensures
        octal_value(octal_field(val, width), width - 1) == val,
        octal_field(val, width)[width - 1] == 0,
{
    lemma_octal_prefix(val, width, width - 1);
    assert(pow8(0) == 1);
}

/// A regular file reads back as it was: the mode field spells the
/// permission bits; the time field spells the time given; the size field
/// spells the length of the content, where that is below 8 GiB; the payload
/// is the content.
pub proof fn lemma_regular_file_round_trip(name: Seq<u8>, mtime: u32, mode: u32, content: Vec<u8>)
    requires
        content@.len() < 0o100000000000,
    ensures
        ({
            let e = file_entries(name, mtime, FileObject::Regular { mode, content });
            &&& octal_value(e.subrange(mode_at(), mode_at() + 8), 7) == permission_bits(mode)
            &&& octal_value(e.subrange(size_at(), size_at() + 12), 11) == content@.len()
            &&& octal_value(e.subrange(mtime_at(), mtime_at() + 12), 11) == mtime
            &&& e.subrange(512, 512 + content@.len() as int) == content@
        }),
{
    lemma_regular_file(name, mtime, mode, content);
    assert(pow8(7) == 0o10000000) by {
        reveal_with_fuel(pow8, 8);
    }
    assert(pow8(11) == 0o100000000000) by {
        reveal_with_fuel(pow8, 12);
    }
    assert(mode & 0o7777 < 0o10000000) by (bit_vector);
    lemma_octal_round_trip(permission_bits(mode) as int, 8);
    lemma_octal_round_trip(content@.len() as int, 12);
    lemma_octal_round_trip(mtime as int, 12);
}

} // verus!
