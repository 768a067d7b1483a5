//! AppImages: what makes a file one, and what is taken from its metadata.

use vstd::prelude::*;
use vstd::string::*;
use crate::desktop::bytes_before;
use crate::icons::{is_scaled, png_pixels, png_size};
use crate::paths::{all_components, copy_bytes, from_utf8, from_utf8_lossy, same_bytes};
use crate::paths::{byte_parts, file_name_of, is_absolute_path, lossy_text, path_components};
use crate::paths::{path_views, same_parts, FilePath};
use crate::text::{
    any_control, characters, contains_part, ends_with, rest_of, slice_of, split_chars, starts_with,
    text_is, text_of, trim,
};
use crate::text::{
    begins_with, finishes_with, has_control, holds_part, optional_text, part_views, split_on,
    trimmed,
};

verus! {

/// The size of the header of an executable.
pub const ELF_HEADER_SIZE: usize = 64;

/// The size of the first block of a file system in an AppImage.
pub const SQUASHFS_SUPERBLOCK_SIZE: usize = 96;

/// How far the file system is looked for.
pub const MAX_RUNTIME_SCAN_BYTES: u64 = 67108864;

/// How long a path in an AppImage may be.
pub const MAX_METADATA_PATH_BYTES: usize = 4096;

/// How many entries of an AppImage are looked at.
pub const MAX_METADATA_ENTRIES: usize = 16384;

/// How large an icon may be.
pub const MAX_ICON_BYTES: usize = 4194304;

/// Why a file is not used.
#[derive(Debug, Clone, Copy, PartialEq, Eq, Structural)]
pub enum InspectionError {
    /// The path is not absolute, not normalized, or too long.
    InvalidPath,
    /// The file is too short.
    TooShort,
    /// The class, architecture, marker or header is not that of an AppImage.
    InvalidHeader,
    /// The file is neither an executable nor a position-independent one.
    InvalidType,
    /// No valid file system was found.
    NoPayload,
    /// The list of entries is unsafe or too long.
    UnsafeMetadataListing,
    /// The name of the file is not UTF-8.
    NameNotText,
    /// The description is not one of an application.
    NotAnApplication,
    /// A name is empty, too long, or holds control characters.
    UnsafeName,
    /// The name of an icon is more than a plain name.
    UnsafeIconName,
    /// The icon is no PNG image, or too large a file.
    InvalidIcon,
    /// The icon has no size that can be handled.
    UnsafeIconSize,
    /// The icon begins as a PNG image and cannot be read as one.
    UndecodableIcon,
    /// The parser wrote more than it may.
    ParserOutputLimit,
    /// The parser took too long.
    ParserTimeout,
    /// The parser failed.
    ParserFailed,
}

/// Whether a part of a path is one that stands for nothing.
pub open spec fn is_idle_part(part: Seq<u8>) -> bool {
    part.len() == 0 || part == seq![46u8]
}

/// Whether a part of a path names something.
pub open spec fn is_named_part() -> spec_fn(Seq<u8>) -> bool {
    |part: Seq<u8>| !is_idle_part(part)
}

/// The parts of a path that name something.
pub open spec fn path_parts(path: Seq<u8>) -> Seq<Seq<u8>> {
    split_on(path, 47u8).filter(is_named_part())
}

/// The part that stands for the directory above.
pub open spec fn parent_part() -> Seq<u8> {
    seq![46u8, 46u8]
}

/// Whether a path is absolute, names something, and goes nowhere up.
pub open spec fn is_normal_absolute(path: Seq<u8>) -> bool {
    is_absolute_path(path) && path_parts(path).len() > 0 && !path_parts(path).contains(
        parent_part(),
    ) && path.len() <= 4096
}

/// Whether a path stays inside the directory that it is relative to.
pub open spec fn is_inner_path(path: Seq<u8>) -> bool {
    !is_absolute_path(path) && path.len() <= MAX_METADATA_PATH_BYTES && !path_parts(path).contains(
        parent_part(),
    ) && split_on(path, 47u8)[0] != seq![46u8]
}

/// The bytes between slashes.
fn split_path(path: &[u8]) -> (parts: Vec<Vec<u8>>)
    ensures
        byte_parts(parts@) == split_on(path@, 47u8),
{
    let mut parts: Vec<Vec<u8>> = Vec::new();
    let mut part: Vec<u8> = Vec::new();
    let mut at: usize = 0;
    assert(path@.take(0) =~= seq![]);
    assert(byte_parts(parts@).push(part@) =~= seq![Seq::<u8>::empty()]);
    while at < path.len()
        invariant
            at <= path.len(),
            byte_parts(parts@).push(part@) == split_on(path@.take(at as int), 47u8),
        decreases path.len() - at,
    {
        let ghost before = byte_parts(parts@);
        let ghost sofar = split_on(path@.take(at as int), 47u8);
        assert(path@.take(at + 1).drop_last() =~= path@.take(at as int));
        assert(sofar.last() == part@);
        assert(sofar.drop_last() =~= before);
        if path[at] == 47 {
            let ghost last = part@;
            parts.push(part);
            part = Vec::new();
            assert(byte_parts(parts@) =~= before.push(last));
            assert(byte_parts(parts@).push(part@) =~= sofar.push(seq![]));
        } else {
            part.push(path[at]);
            assert(byte_parts(parts@).push(part@) =~= sofar.drop_last().push(
                sofar.last().push(path@[at as int]),
            ));
        }
        at = at + 1;
    }
    assert(path@.take(at as int) =~= path@);
    let ghost before = byte_parts(parts@);
    let ghost last = part@;
    parts.push(part);
    assert(byte_parts(parts@) =~= before.push(last));
    parts
}

/// The parts of a path that name something.
pub fn named_parts(path: &[u8]) -> (parts: Vec<Vec<u8>>)
    ensures
        byte_parts(parts@) == path_parts(path@),
{
    let all = split_path(path);
    let ghost views = byte_parts(all@);
    let mut parts: Vec<Vec<u8>> = Vec::new();
    let mut at: usize = 0;
    proof {
        crate::lists::filter_ends(views, is_named_part());
    }
    assert(byte_parts(parts@) =~= views.take(0).filter(is_named_part()));
    while at < all.len()
        invariant
            at <= all.len(),
            views == byte_parts(all@),
            byte_parts(parts@) == views.take(at as int).filter(is_named_part()),
        decreases all.len() - at,
    {
        proof {
            crate::lists::filter_step(views, is_named_part(), at as int);
        }
        assert(views[at as int] == all@[at as int]@);
        let ghost before = byte_parts(parts@);
        let part = &all[at];
        let idle = part.len() == 0 || (part.len() == 1 && part[0] == 46);
        assert(idle == is_idle_part(part@)) by {
            if part@.len() == 1 && part@[0] == 46 {
                assert(part@ =~= seq![46u8]);
            }
        }
        if !idle {
            let copy = copy_bytes(part.as_slice());
            parts.push(copy);
            assert(byte_parts(parts@) =~= before.push(copy@));
        }
        at = at + 1;
    }
    proof {
        crate::lists::filter_ends(views, is_named_part());
    }
    parts
}

/// Whether a part is the one that stands for the directory above.
pub fn goes_up(parts: &Vec<Vec<u8>>) -> (up: bool)
    ensures
        up == byte_parts(parts@).contains(parent_part()),
{
    let ghost views = byte_parts(parts@);
    let mut at: usize = 0;
    while at < parts.len()
        invariant
            at <= parts.len(),
            views == byte_parts(parts@),
            forall|earlier: int| 0 <= earlier < at ==> views[earlier] != parent_part(),
        decreases parts.len() - at,
    {
        assert(views[at as int] == parts@[at as int]@);
        let part = &parts[at];
        if part.len() == 2 && part[0] == 46 && part[1] == 46 {
            assert(part@ =~= parent_part());
            assert(views[at as int] == parent_part());
            return true;
        }
        assert(views[at as int] != parent_part());
        at = at + 1;
    }
    false
}

/// Refuses a path that is not absolute, names nothing, goes up, or is too long.
pub fn validate_absolute_path(path: &FilePath) -> (valid: Result<(), InspectionError>)
    ensures
        valid == if is_normal_absolute(path@) {
            Ok::<(), InspectionError>(())
        } else {
            Err(InspectionError::InvalidPath)
        },
{
    let parts = named_parts(path.bytes.as_slice());
    assert(byte_parts(parts@).len() == parts@.len());
    if !path.is_absolute() || parts.len() == 0 || goes_up(&parts) || path.bytes.len() > 4096 {
        return Err(InspectionError::InvalidPath);
    }
    Ok(())
}

/// Refuses a path that may leave the directory that it is relative to, or is too long.
pub fn validate_metadata_path(path: &FilePath) -> (valid: Result<(), InspectionError>)
    ensures
        valid == if is_inner_path(path@) {
            Ok::<(), InspectionError>(())
        } else {
            Err(InspectionError::UnsafeMetadataListing)
        },
{
    let all = split_path(path.bytes.as_slice());
    let parts = named_parts(path.bytes.as_slice());
    proof {
        split_is_not_empty(path@);
        assert(byte_parts(all@).len() == all@.len());
        assert(byte_parts(all@)[0] == all@[0]@);
    }
    let first = &all[0];
    let dot = first.len() == 1 && first[0] == 46;
    assert(dot == (first@ == seq![46u8])) by {
        if dot {
            assert(first@ =~= seq![46u8]);
        }
    }
    if path.is_absolute() || path.bytes.len() > MAX_METADATA_PATH_BYTES || goes_up(&parts) || dot {
        return Err(InspectionError::UnsafeMetadataListing);
    }
    Ok(())
}

/// Splitting leaves at least one part.
proof fn split_is_not_empty(path: Seq<u8>)
    ensures
        split_on(path, 47u8).len() > 0,
    decreases path.len(),
{
    if path.len() > 0 {
        split_is_not_empty(path.drop_last());
    }
}

/// A number that is stored with its lowest byte first.
pub open spec fn little_endian(bytes: Seq<u8>) -> nat
    decreases bytes.len(),
{
    if bytes.len() == 0 {
        0
    } else {
        bytes[0] as nat + 256 * little_endian(bytes.skip(1))
    }
}

/// The number of `length` bytes that is stored from `start` on.
pub open spec fn stored(bytes: Seq<u8>, start: int, length: int) -> nat {
    little_endian(bytes.subrange(start, start + length))
}

/// Two bytes as a number.
fn stored_u16(bytes: &[u8], start: usize) -> (number: u16)
    requires
        start + 2 <= bytes@.len(),
    ensures
        number == stored(bytes@, start as int, 2),
{
    let ghost part = bytes@.subrange(start as int, start + 2);
    proof {
        reveal_with_fuel(little_endian, 3);
        assert(part.skip(1).skip(1) =~= seq![]);
    }
    bytes[start] as u16 + 256 * bytes[start + 1] as u16
}

/// Four bytes as a number.
pub fn stored_u32(bytes: &[u8], start: usize) -> (number: u32)
    requires
        start + 4 <= bytes@.len(),
    ensures
        number == stored(bytes@, start as int, 4),
{
    let ghost part = bytes@.subrange(start as int, start + 4);
    proof {
        reveal_with_fuel(little_endian, 5);
        assert(part.skip(1).skip(1).skip(1).skip(1) =~= seq![]);
    }
    bytes[start] as u32 + 256 * (bytes[start + 1] as u32 + 256 * (bytes[start + 2] as u32 + 256
        * bytes[start + 3] as u32))
}

/// Eight bytes as a number.
fn stored_u64(bytes: &[u8], start: usize) -> (number: u64)
    requires
        start + 8 <= bytes@.len(),
    ensures
        number == stored(bytes@, start as int, 8),
{
    let low: u64 = stored_u32(bytes, start) as u64;
    let length: usize = bytes.len();
    let high: u64 = stored_u32(bytes, start + 4) as u64;
    proof {
        let part = bytes@.subrange(start as int, start + 8);
        assert(part.take(4) =~= bytes@.subrange(start as int, start + 4));
        assert(part.skip(4) =~= bytes@.subrange(start + 4, start + 8));
        eight_bytes(part);
    }
    low + 4294967296 * high
}

/// Eight bytes are two numbers of four.
proof fn eight_bytes(part: Seq<u8>)
    requires
        part.len() == 8,
    ensures
        little_endian(part) == little_endian(part.take(4)) + 4294967296 * little_endian(
            part.skip(4),
        ),
        little_endian(part.take(4)) < 4294967296,
        little_endian(part.skip(4)) < 4294967296,
{
    reveal_with_fuel(little_endian, 5);
    let low = part.take(4);
    let high = part.skip(4);
    assert(low.skip(1).skip(1).skip(1).skip(1) =~= seq![]);
    assert(high.skip(1).skip(1).skip(1).skip(1) =~= seq![]);
    assert(part.skip(1).skip(1).skip(1).skip(1) =~= high);
}

/// Whether a header is that of an AppImage for this machine.
pub open spec fn is_appimage_header(header: Seq<u8>) -> bool {
    &&& header[0] == 127 && header[1] == 69 && header[2] == 76 && header[3] == 70
    &&& header[4] == 2 && header[5] == 1 && header[6] == 1
    &&& header[8] == 65 && header[9] == 73 && header[10] == 2
    &&& stored(header, 18, 2) == 62
    &&& stored(header, 20, 4) == 1
    &&& stored(header, 52, 2) >= ELF_HEADER_SIZE
}

/// Refuses a header that is not that of an AppImage for this machine.
pub fn validate_elf_header(header: &[u8]) -> (valid: Result<(), InspectionError>)
    requires
        header@.len() == ELF_HEADER_SIZE,
    ensures
        valid == if !is_appimage_header(header@) {
            Err::<(), InspectionError>(InspectionError::InvalidHeader)
        } else if stored(header@, 16, 2) != 2 && stored(header@, 16, 2) != 3 {
            Err(InspectionError::InvalidType)
        } else {
            Ok(())
        },
        valid == header_verdict(header@),
{
    let machine: u16 = stored_u16(header, 18);
    let version: u32 = stored_u32(header, 20);
    let size: u16 = stored_u16(header, 52);
    if header[0] != 127 || header[1] != 69 || header[2] != 76 || header[3] != 70 || header[4] != 2
        || header[5] != 1 || header[6] != 1 || header[8] != 65 || header[9] != 73 || header[10] != 2
        || machine != 62 || version != 1 || size < 64 {
        return Err(InspectionError::InvalidHeader);
    }
    let kind: u16 = stored_u16(header, 16);
    if kind != 2 && kind != 3 {
        return Err(InspectionError::InvalidType);
    }
    Ok(())
}

/// Whether the size of a block is one that a file system can have, with this logarithm.
pub open spec fn is_block_size(size: nat, log: nat) -> bool {
    12 <= log <= 20 && size == vstd::arithmetic::power2::pow2(log)
}

/// Whether a block at `offset` of a file is the first of a file system that ends inside the file.
pub open spec fn is_superblock(block: Seq<u8>, offset: u64, file_size: u64) -> bool {
    &&& block[0] == 104 && block[1] == 115 && block[2] == 113 && block[3] == 115
    &&& stored(block, 4, 4) > 0
    &&& is_block_size(stored(block, 12, 4), stored(block, 22, 2))
    &&& 1 <= stored(block, 20, 2) <= 6
    &&& stored(block, 28, 2) == 4
    &&& stored(block, 30, 2) == 0
    &&& stored(block, 40, 8) >= SQUASHFS_SUPERBLOCK_SIZE
    &&& offset + stored(block, 40, 8) <= file_size
}

/// Whether the first block of a file system can be at `offset` of a file of that size.
pub fn has_superblock_at(offset: u64, file_size: u64) -> (has: bool)
    ensures
        has == (offset + SQUASHFS_SUPERBLOCK_SIZE <= file_size),
        has == holds_superblock(offset, file_size),
{
    file_size >= 96 && offset <= file_size - 96
}

/// Whether the size of a block is one that a file system can have, with this logarithm.
fn block_size_fits(size: u32, log: u16) -> (fits: bool)
    ensures
        fits == is_block_size(size as nat, log as nat),
{
    proof {
        vstd::arithmetic::power2::lemma2_to64();
    }
    (log == 12 && size == 4096) || (log == 13 && size == 8192) || (log == 14 && size == 16384) || (
    log == 15 && size == 32768) || (log == 16 && size == 65536) || (log == 17 && size == 131072) || (
    log == 18 && size == 262144) || (log == 19 && size == 524288) || (log == 20 && size == 1048576)
}

/// Whether a block at `offset` of a file is the first of a file system that ends inside the file.
pub fn validate_squashfs_superblock(block: &[u8], offset: u64, file_size: u64) -> (valid: bool)
    requires
        block@.len() == SQUASHFS_SUPERBLOCK_SIZE,
    ensures
        valid == is_superblock(block@, offset, file_size),
{
    let inodes: u32 = stored_u32(block, 4);
    let size: u32 = stored_u32(block, 12);
    let compression: u16 = stored_u16(block, 20);
    let log: u16 = stored_u16(block, 22);
    let major: u16 = stored_u16(block, 28);
    let minor: u16 = stored_u16(block, 30);
    let used: u64 = stored_u64(block, 40);
    let magic = block[0] == 104 && block[1] == 115 && block[2] == 113 && block[3] == 115;
    let fits = offset <= file_size && used <= file_size - offset;
    magic && inodes > 0 && block_size_fits(size, log) && compression >= 1 && compression <= 6
        && major == 4 && minor == 0 && used >= 96 && fits
}

/// The bytes that a file system begins with.
pub open spec fn squashfs_magic() -> Seq<u8> {
    seq![104u8, 115u8, 113u8, 115u8]
}

/// Whether `needle` is at `at` of the data.
pub open spec fn occurs_at(data: Seq<u8>, needle: Seq<u8>, at: int) -> bool {
    0 <= at && at + needle.len() <= data.len() && data.subrange(at, at + needle.len()) == needle
}

/// Whether the mark of a file system is at `at` of the data.
pub open spec fn magic_at(data: Seq<u8>, at: int) -> bool {
    occurs_at(data, squashfs_magic(), at)
}

/// Whether places rise and are exactly those of `needle`.
pub open spec fn are_places(data: Seq<u8>, needle: Seq<u8>, places: Seq<usize>) -> bool {
    &&& forall|left: int, right: int|
        0 <= left < right < places.len() ==> #[trigger] places[left] < #[trigger] places[right]
    &&& forall|at: int|
        #![trigger occurs_at(data, needle, at)]
        occurs_at(data, needle, at) <==> exists|place: int|
            0 <= place < places.len() && #[trigger] places[place] == at
}

/// Whether `needle` is at `at` of the data.
fn occurs(data: &[u8], needle: &[u8], at: usize) -> (is: bool)
    requires
        at + needle@.len() <= data@.len(),
    ensures
        is == occurs_at(data@, needle@, at as int),
{
    let ghost part = data@.subrange(at as int, at + needle@.len());
    let length: usize = data.len();
    let mut index: usize = 0;
    while index < needle.len()
        invariant
            index <= needle.len(),
            at + needle@.len() <= data@.len(),
            data@.len() <= usize::MAX,
            part == data@.subrange(at as int, at + needle@.len()),
            forall|earlier: int| 0 <= earlier < index ==> part[earlier] == needle@[earlier],
        decreases needle.len() - index,
    {
        if data[at + index] != needle[index] {
            assert(part[index as int] != needle@[index as int]);
            return false;
        }
        index = index + 1;
    }
    assert(part =~= needle@);
    true
}

/// The places of `needle` in the data, in rising order.
pub fn memmem(haystack: &[u8], needle: &[u8]) -> (places: Vec<usize>)
    requires
        needle@.len() > 0,
    ensures
        are_places(haystack@, needle@, places@),
{
    let mut places: Vec<usize> = Vec::new();
    let mut at: usize = 0;
    while at < haystack.len() && haystack.len() - at >= needle.len()
        invariant
            at <= haystack.len(),
            needle@.len() > 0,
            forall|left: int, right: int|
                0 <= left < right < places@.len() ==> #[trigger] places@[left]
                    < #[trigger] places@[right],
            forall|place: int| 0 <= place < places@.len() ==> #[trigger] places@[place] < at,
            forall|earlier: int|
                #![trigger occurs_at(haystack@, needle@, earlier)]
                earlier < at ==> (occurs_at(haystack@, needle@, earlier) <==> exists|place: int|
                    0 <= place < places@.len() && #[trigger] places@[place] == earlier),
        decreases haystack.len() - at,
    {
        let ghost before = places@;
        let found = occurs(haystack, needle, at);
        if found {
            places.push(at);
            assert(places@[before.len() as int] == at);
        }
        assert forall|earlier: int|
            #![trigger occurs_at(haystack@, needle@, earlier)]
            earlier < at + 1 implies (occurs_at(haystack@, needle@, earlier) <==> exists|
            place: int,
        |
            0 <= place < places@.len() && #[trigger] places@[place] == earlier) by {
            if earlier < at {
                if occurs_at(haystack@, needle@, earlier) {
                    let place = choose|place: int|
                        0 <= place < before.len() && #[trigger] before[place] == earlier;
                    assert(places@[place] == earlier);
                }
                if exists|place: int|
                    0 <= place < places@.len() && #[trigger] places@[place] == earlier {
                    let place = choose|place: int|
                        0 <= place < places@.len() && #[trigger] places@[place] == earlier;
                    if place < before.len() {
                        assert(before[place] == earlier);
                    }
                }
            } else if !found {
                assert(places@ == before);
            }
        }
        at = at + 1;
    }
    places
}

/// The end of the data that the mark may begin in: its last three bytes.
pub open spec fn tail_of(data: Seq<u8>) -> Seq<u8> {
    if data.len() <= 3 {
        data
    } else {
        data.skip(data.len() - 3)
    }
}

/// Where the search for a file system is.
#[derive(Debug)]
pub struct SquashfsScan {
    /// Where the next bytes are.
    pub offset: u64,
    /// The end of the bytes that were searched.
    pub overlap: Vec<u8>,
}

impl SquashfsScan {
    /// A search from behind the header on.
    pub fn new() -> (scan: SquashfsScan)
        ensures
            scan.offset == ELF_HEADER_SIZE,
            scan.overlap@.len() == 0,
    {
        SquashfsScan { offset: 64, overlap: Vec::new() }
    }

    /// How many bytes are to be read next of a file of that size; none where the search is over.
    pub fn next_length(&self, file_size: u64) -> (length: usize)
        ensures
            length == if self.offset >= MAX_RUNTIME_SCAN_BYTES || self.offset >= file_size {
                0
            } else if file_size < MAX_RUNTIME_SCAN_BYTES {
                crate::arith::min_of(file_size - self.offset, 1048576)
            } else {
                crate::arith::min_of(MAX_RUNTIME_SCAN_BYTES - self.offset, 1048576)
            },
            length == piece_length(self.offset, file_size),
    {
        let end: u64 = if file_size < MAX_RUNTIME_SCAN_BYTES {
            file_size
        } else {
            MAX_RUNTIME_SCAN_BYTES
        };
        if self.offset >= end {
            return 0;
        }
        let rest: u64 = end - self.offset;
        if rest < 1048576 {
            rest as usize
        } else {
            1048576
        }
    }

    /// Searches the next bytes of the file: the places in it where a file system may begin.
    pub fn advance(&mut self, chunk: &Vec<u8>) -> (candidates: Vec<u64>)
        requires
            old(self).overlap@.len() <= 3,
            old(self).overlap@.len() <= old(self).offset,
            old(self).offset + chunk@.len() <= u64::MAX,
            chunk@.len() + 3 <= usize::MAX,
        ensures
            final(self).offset == old(self).offset + chunk@.len(),
            final(self).overlap@ == tail_of(old(self).overlap@ + chunk@),
            final(self).overlap@.len() <= final(self).offset,
            forall|left: int, right: int|
                0 <= left < right < candidates@.len() ==> #[trigger] candidates@[left]
                    < #[trigger] candidates@[right],
            forall|at: int|
                #![trigger magic_at(old(self).overlap@ + chunk@, at)]
                magic_at(old(self).overlap@ + chunk@, at) <==> exists|place: int|
                    0 <= place < candidates@.len() && #[trigger] candidates@[place] == old(
                        self,
                    ).offset - old(self).overlap@.len() + at,
    {
        let ghost overlap = self.overlap@;
        let start: u64 = self.offset - self.overlap.len() as u64;
        let mut data: Vec<u8> = copy_bytes(self.overlap.as_slice());
        let mut copied: usize = 0;
        while copied < chunk.len()
            invariant
                copied <= chunk.len(),
                chunk@.len() + 3 <= usize::MAX,
                overlap.len() <= 3,
                data@ == overlap + chunk@.take(copied as int),
            decreases chunk.len() - copied,
        {
            data.push(chunk[copied]);
            assert(data@ =~= overlap + chunk@.take(copied + 1));
            copied = copied + 1;
        }
        assert(chunk@.take(copied as int) =~= chunk@);
        let magic: [u8; 4] = [104, 115, 113, 115];
        assert(magic@ =~= squashfs_magic());
        let places = memmem(data.as_slice(), magic.as_slice());
        let mut candidates: Vec<u64> = Vec::new();
        let mut at: usize = 0;
        while at < places.len()
            invariant
                at <= places.len(),
                are_places(data@, squashfs_magic(), places@),
                start + data@.len() <= u64::MAX,
                candidates@.len() == at,
                forall|place: int|
                    0 <= place < at ==> #[trigger] candidates@[place] == start + places@[place],
            decreases places.len() - at,
        {
            let ghost wanted = places@[at as int] as int;
            assert(places@[at as int] == wanted);
            assert(magic_at(data@, wanted));
            candidates.push(start + places[at] as u64);
            at = at + 1;
        }
        proof {
            assert forall|place: int|
                #![trigger magic_at(data@, place)]
                magic_at(data@, place) <==> exists|found: int|
                    0 <= found < candidates@.len() && #[trigger] candidates@[found] == start
                        + place by {
                if magic_at(data@, place) {
                    let found = choose|found: int|
                        0 <= found < places@.len() && #[trigger] places@[found] == place;
                    assert(candidates@[found] == start + place);
                }
                if exists|found: int|
                    0 <= found < candidates@.len() && #[trigger] candidates@[found] == start
                        + place {
                    let found = choose|found: int|
                        0 <= found < candidates@.len() && #[trigger] candidates@[found] == start
                            + place;
                    assert(places@[found] == place);
                }
            }
        }
        let keep: usize = if data.len() <= 3 {
            0
        } else {
            data.len() - 3
        };
        let tail = crate::paths::copy_bytes_from(&data, keep);
        assert(tail@ =~= tail_of(overlap + chunk@));
        self.overlap = tail;
        self.offset = self.offset + chunk.len() as u64;
        candidates
    }
}

/// Searching piece by piece finds the mark wherever searching all at once would, also across the
/// pieces, and nowhere twice.
pub proof fn pieces_hide_no_mark(front: Seq<u8>, chunk: Seq<u8>, at: int)
    ensures
        ({
            let overlap = tail_of(front);
            let start = front.len() - overlap.len();
            &&& magic_at(front + chunk, at) <==> (magic_at(front, at) || magic_at(
                overlap + chunk,
                at - start,
            ))
            &&& !(magic_at(front, at) && magic_at(overlap + chunk, at - start))
        }),
{
    let overlap = tail_of(front);
    let start = front.len() - overlap.len();
    let whole = front + chunk;
    let piece = overlap + chunk;
    assert(piece =~= whole.skip(start));
    if 0 <= at && at + 4 <= front.len() {
        assert(front.subrange(at, at + 4) =~= whole.subrange(at, at + 4));
    }
    if start <= at && at + 4 <= whole.len() {
        assert(piece.subrange(at - start, at - start + 4) =~= whole.subrange(at, at + 4));
    }
}

/// The part of a line of a list of entries that names an entry.
pub open spec fn listed_name(line: Seq<char>) -> Seq<char> {
    let text = trimmed(line);
    if begins_with(text, "squashfs-root/"@) {
        text.skip("squashfs-root/"@.len() as int)
    } else if begins_with(text, "squashfs-root"@) {
        text.skip("squashfs-root"@.len() as int)
    } else {
        text
    }
}

/// The paths that the lines of a list name, or nothing where one of them is unsafe.
pub open spec fn listed_paths(lines: Seq<Seq<char>>) -> Option<Seq<Seq<u8>>>
    decreases lines.len(),
{
    if lines.len() == 0 {
        Some(seq![])
    } else {
        let path = vstd::utf8::encode_utf8(listed_name(lines.last()));
        match listed_paths(lines.drop_last()) {
            Some(before) => if path.len() == 0 {
                Some(before)
            } else if is_inner_path(path) && before.len() < MAX_METADATA_ENTRIES {
                Some(before.push(path))
            } else {
                None
            },
            None => None,
        }
    }
}

/// Where a kind of component stands among the others: the root first, then the directory itself, the
/// directory above, and names.
pub open spec fn component_rank(component: Seq<u8>) -> int {
    if component == seq![47u8] {
        0
    } else if component == seq![46u8] {
        1
    } else if component == parent_part() {
        2
    } else {
        3
    }
}

/// Whether the component `left` comes before `right`: names are ordered by their bytes.
pub open spec fn component_before(left: Seq<u8>, right: Seq<u8>) -> bool {
    component_rank(left) < component_rank(right) || (component_rank(left) == 3 && component_rank(
        right,
    ) == 3 && bytes_before(left, right))
}

/// Whether the components `left` come before `right`.
pub open spec fn parts_before(left: Seq<Seq<u8>>, right: Seq<Seq<u8>>) -> bool
    decreases left.len(),
{
    if right.len() == 0 {
        false
    } else if left.len() == 0 {
        true
    } else if left[0] != right[0] {
        component_before(left[0], right[0])
    } else {
        parts_before(left.skip(1), right.skip(1))
    }
}

/// Paths in order, each once, with one more.
pub open spec fn with_path(paths: Seq<Seq<u8>>, path: Seq<u8>) -> Seq<Seq<u8>>
    decreases paths.len(),
{
    if paths.len() == 0 {
        seq![path]
    } else if path_components(paths.last()) == path_components(path) {
        paths
    } else if parts_before(path_components(paths.last()), path_components(path)) {
        paths.push(path)
    } else {
        with_path(paths.drop_last(), path).push(paths.last())
    }
}

/// Paths in order, each once.
pub open spec fn ordered_paths(paths: Seq<Seq<u8>>) -> Seq<Seq<u8>>
    decreases paths.len(),
{
    if paths.len() == 0 {
        seq![]
    } else {
        with_path(ordered_paths(paths.drop_last()), paths.last())
    }
}

/// Paths in order with one more, behind those that lead the same way.
pub open spec fn with_sorted(paths: Seq<Seq<u8>>, path: Seq<u8>) -> Seq<Seq<u8>>
    decreases paths.len(),
{
    if paths.len() == 0 || !parts_before(path_components(path), path_components(paths.last())) {
        paths.push(path)
    } else {
        with_sorted(paths.drop_last(), path).push(paths.last())
    }
}

/// Paths in order; those that lead the same way stay in the order that they had.
pub open spec fn sorted_paths(paths: Seq<Seq<u8>>) -> Seq<Seq<u8>>
    decreases paths.len(),
{
    if paths.len() == 0 {
        seq![]
    } else {
        with_sorted(sorted_paths(paths.drop_last()), paths.last())
    }
}

/// The entries that a list names, in order, each once; nothing where one is unsafe or there are too
/// many.
pub open spec fn listed_entries(bytes: Seq<u8>) -> Option<Seq<Seq<u8>>> {
    if vstd::utf8::valid_utf8(bytes) {
        match listed_paths(split_on(vstd::utf8::decode_utf8(bytes), '\n')) {
            Some(paths) => Some(ordered_paths(paths)),
            None => None,
        }
    } else {
        None
    }
}

/// Where a kind of component stands among the others.
fn rank_of(component: &Vec<u8>) -> (rank: u8)
    ensures
        rank == component_rank(component@),
{
    let length: usize = component.len();
    proof {
        if length == 1 {
            assert(component@ =~= seq![component@[0]]);
        }
        if length == 2 {
            assert(component@ =~= seq![component@[0], component@[1]]);
        }
    }
    if length == 1 && component[0] == 47 {
        0
    } else if length == 1 && component[0] == 46 {
        1
    } else if length == 2 && component[0] == 46 && component[1] == 46 {
        2
    } else {
        3
    }
}

/// Whether the component `left` comes before `right`.
fn comes_first(left: &Vec<u8>, right: &Vec<u8>) -> (first: bool)
    ensures
        first == component_before(left@, right@),
{
    let one: u8 = rank_of(left);
    let other: u8 = rank_of(right);
    one < other || (one == 3 && other == 3 && crate::desktop::name_before(
        left.as_slice(),
        right.as_slice(),
    ))
}

/// Whether the components `left` come before `right`.
fn parts_first(left: &Vec<Vec<u8>>, right: &Vec<Vec<u8>>) -> (first: bool)
    ensures
        first == parts_before(byte_parts(left@), byte_parts(right@)),
{
    let ghost one = byte_parts(left@);
    let ghost other = byte_parts(right@);
    let mut at: usize = 0;
    assert(one.skip(0) =~= one);
    assert(other.skip(0) =~= other);
    while at < left.len() && at < right.len() && same_bytes(
        left[at].as_slice(),
        right[at].as_slice(),
    )
        invariant
            at <= left.len(),
            at <= right.len(),
            one == byte_parts(left@),
            other == byte_parts(right@),
            parts_before(one, other) == parts_before(one.skip(at as int), other.skip(at as int)),
        decreases left.len() - at,
    {
        assert(one[at as int] == left@[at as int]@);
        assert(other[at as int] == right@[at as int]@);
        assert(one.skip(at as int).skip(1) =~= one.skip(at + 1));
        assert(other.skip(at as int).skip(1) =~= other.skip(at + 1));
        at = at + 1;
    }
    if at == right.len() {
        return false;
    }
    if at == left.len() {
        return true;
    }
    assert(one[at as int] == left@[at as int]@);
    assert(other[at as int] == right@[at as int]@);
    comes_first(&left[at], &right[at])
}

/// Puts a path where it belongs, unless it is there.
pub fn insert_path(paths: &mut Vec<FilePath>, path: FilePath)
    ensures
        path_views(final(paths)@) == with_path(path_views(old(paths)@), path@),
{
    let ghost views = path_views(paths@);
    let parts = all_components(&path);
    let mut at: usize = paths.len();
    assert(views.take(at as int) =~= views);
    assert(with_path(views, path@) =~= with_path(views, path@) + views.skip(at as int));
    while at > 0
        invariant
            at <= paths.len(),
            views == path_views(paths@),
            paths@ == old(paths)@,
            byte_parts(parts@) == path_components(path@),
            with_path(views, path@) == with_path(views.take(at as int), path@) + views.skip(
                at as int,
            ),
        ensures
            at <= paths.len(),
            paths@ == old(paths)@,
            at > 0 ==> path_components(views[at - 1]) != path_components(path@) && parts_before(
                path_components(views[at - 1]),
                path_components(path@),
            ),
            with_path(views, path@) == with_path(views.take(at as int), path@) + views.skip(
                at as int,
            ),
        decreases at,
    {
        let ghost front = views.take(at as int);
        assert(front.last() == paths@[at - 1]@);
        assert(views[at - 1] == paths@[at - 1]@);
        let last = all_components(&paths[at - 1]);
        if same_parts(&last, &parts) {
            assert(with_path(front, path@) == front);
            assert(front + views.skip(at as int) =~= views);
            return;
        }
        if parts_first(&last, &parts) {
            break;
        }
        assert(front.drop_last() =~= views.take(at - 1));
        assert(with_path(views.take(at - 1), path@).push(front.last()) + views.skip(at as int)
            =~= with_path(views.take(at - 1), path@) + views.skip(at - 1));
        at = at - 1;
    }
    let ghost front = views.take(at as int);
    assert(at > 0 ==> front.last() == views[at - 1]);
    assert(with_path(front, path@) =~= front.push(path@));
    paths.insert(at, path);
    assert(path_views(paths@) =~= front.push(path@) + views.skip(at as int));
}

/// Puts a path where it belongs, behind those that lead the same way.
pub fn insert_sorted(paths: &mut Vec<FilePath>, path: FilePath)
    ensures
        path_views(final(paths)@) == with_sorted(path_views(old(paths)@), path@),
{
    let ghost views = path_views(paths@);
    let parts = all_components(&path);
    let mut at: usize = paths.len();
    assert(views.take(at as int) =~= views);
    assert(with_sorted(views, path@) =~= with_sorted(views, path@) + views.skip(at as int));
    while at > 0
        invariant
            at <= paths.len(),
            views == path_views(paths@),
            paths@ == old(paths)@,
            byte_parts(parts@) == path_components(path@),
            with_sorted(views, path@) == with_sorted(views.take(at as int), path@) + views.skip(
                at as int,
            ),
        ensures
            at <= paths.len(),
            paths@ == old(paths)@,
            at > 0 ==> !parts_before(path_components(path@), path_components(views[at - 1])),
            with_sorted(views, path@) == with_sorted(views.take(at as int), path@) + views.skip(
                at as int,
            ),
        decreases at,
    {
        let ghost front = views.take(at as int);
        assert(front.last() == paths@[at - 1]@);
        assert(views[at - 1] == paths@[at - 1]@);
        if !parts_first(&parts, &all_components(&paths[at - 1])) {
            break;
        }
        assert(front.drop_last() =~= views.take(at - 1));
        assert(with_sorted(views.take(at - 1), path@).push(front.last()) + views.skip(at as int)
            =~= with_sorted(views.take(at - 1), path@) + views.skip(at - 1));
        at = at - 1;
    }
    let ghost front = views.take(at as int);
    assert(at > 0 ==> front.last() == views[at - 1]);
    assert(with_sorted(front, path@) =~= front.push(path@));
    paths.insert(at, path);
    assert(path_views(paths@) =~= front.push(path@) + views.skip(at as int));
}

/// The part of a line of a list of entries that names an entry.
fn name_in_line(line: &Vec<char>) -> (name: Vec<char>)
    ensures
        name@ == listed_name(line@),
{
    let text = trim(line.as_slice());
    proof {
        reveal_strlit("squashfs-root/");
        reveal_strlit("squashfs-root");
    }
    if starts_with(text.as_slice(), "squashfs-root/") {
        return rest_of(text.as_slice(), 14);
    }
    if starts_with(text.as_slice(), "squashfs-root") {
        return rest_of(text.as_slice(), 13);
    }
    text
}

/// A list that is unsafe in its front is unsafe.
proof fn unsafe_front(lines: Seq<Seq<char>>, length: int)
    requires
        0 <= length <= lines.len(),
        listed_paths(lines.take(length)) is None,
    ensures
        listed_paths(lines) is None,
    decreases lines.len() - length,
{
    if length < lines.len() {
        assert(lines.take(length + 1).drop_last() =~= lines.take(length));
        unsafe_front(lines, length + 1);
    } else {
        assert(lines.take(length) =~= lines);
    }
}

/// The paths that the lines of a list name.
fn read_lines(lines: &Vec<Vec<char>>) -> (paths: Option<Vec<FilePath>>)
    ensures
        match paths {
            Some(paths) => listed_paths(part_views(lines@)) == Some(path_views(paths@)),
            None => listed_paths(part_views(lines@)) is None,
        },
{
    let ghost views = part_views(lines@);
    let mut paths: Vec<FilePath> = Vec::new();
    let mut at: usize = 0;
    assert(views.take(0) =~= seq![]);
    assert(path_views(paths@) =~= seq![]);
    while at < lines.len()
        invariant
            at <= lines.len(),
            views == part_views(lines@),
            listed_paths(views.take(at as int)) == Some(path_views(paths@)),
        decreases lines.len() - at,
    {
        assert(views.take(at + 1).drop_last() =~= views.take(at as int));
        assert(views[at as int] == lines@[at as int]@);
        let ghost before = path_views(paths@);
        assert(before.len() == paths@.len());
        let name = text_of(name_in_line(&lines[at]).as_slice());
        let path = FilePath { bytes: copy_bytes(name.as_str().as_bytes()) };
        if path.bytes.len() > 0 {
            if validate_metadata_path(&path).is_err() || paths.len() >= MAX_METADATA_ENTRIES {
                proof {
                    unsafe_front(views, at + 1);
                }
                return None;
            }
            paths.push(path);
            assert(path_views(paths@) =~= before.push(path@));
        }
        at = at + 1;
    }
    assert(views.take(at as int) =~= views);
    Some(paths)
}

/// The entries that a list names.
pub fn parse_listing(bytes: &[u8]) -> (entries: Result<Vec<FilePath>, InspectionError>)
    ensures
        match entries {
            Ok(entries) => listed_entries(bytes@) == Some(path_views(entries@)),
            Err(error) => listed_entries(bytes@) is None && error
                == InspectionError::UnsafeMetadataListing,
        },
{
    let text = match from_utf8(bytes) {
        Some(text) => text,
        None => {
            return Err(InspectionError::UnsafeMetadataListing);
        },
    };
    let lines = split_chars(characters(text.as_str()).as_slice(), '\n');
    let paths = match read_lines(&lines) {
        Some(paths) => paths,
        None => {
            return Err(InspectionError::UnsafeMetadataListing);
        },
    };
    let ghost views = path_views(paths@);
    let mut entries: Vec<FilePath> = Vec::new();
    let mut at: usize = 0;
    assert(views.take(0) =~= seq![]);
    assert(path_views(entries@) =~= seq![]);
    while at < paths.len()
        invariant
            at <= paths.len(),
            views == path_views(paths@),
            path_views(entries@) == ordered_paths(views.take(at as int)),
        decreases paths.len() - at,
    {
        assert(views.take(at + 1).drop_last() =~= views.take(at as int));
        assert(views[at as int] == paths@[at as int]@);
        insert_path(&mut entries, paths[at].duplicate());
        at = at + 1;
    }
    assert(views.take(at as int) =~= views);
    Ok(entries)
}

/// Every entry that is listed stays inside the AppImage.
pub proof fn listed_entries_stay_inside(bytes: Seq<u8>, at: int)
    requires
        listed_entries(bytes) is Some,
        0 <= at < listed_entries(bytes)->0.len(),
    ensures
        is_inner_path(listed_entries(bytes)->0[at]),
{
    let lines = split_on(vstd::utf8::decode_utf8(bytes), '\n');
    listed_paths_are_inner(lines);
    let paths = listed_paths(lines)->0;
    ordering_adds_nothing(paths);
    let entry = ordered_paths(paths)[at];
    let from = choose|from: int| 0 <= from < paths.len() && paths[from] == entry;
    assert(is_inner_path(paths[from]));
}

/// Every path that a list names is an inner one.
proof fn listed_paths_are_inner(lines: Seq<Seq<char>>)
    ensures
        match listed_paths(lines) {
            Some(paths) => forall|at: int|
                0 <= at < paths.len() ==> is_inner_path(#[trigger] paths[at]),
            None => true,
        },
    decreases lines.len(),
{
    if lines.len() > 0 {
        listed_paths_are_inner(lines.drop_last());
    }
}

/// Ordering paths leaves only paths that were there.
proof fn ordering_adds_nothing(paths: Seq<Seq<u8>>)
    ensures
        forall|at: int|
            0 <= at < ordered_paths(paths).len() ==> paths.contains(
                #[trigger] ordered_paths(paths)[at],
            ),
    decreases paths.len(),
{
    if paths.len() > 0 {
        let front = paths.drop_last();
        ordering_adds_nothing(front);
        inserting_adds_one(ordered_paths(front), paths.last());
        let whole = ordered_paths(paths);
        assert forall|at: int| 0 <= at < whole.len() implies paths.contains(#[trigger] whole[at]) by {
            if whole[at] == paths.last() {
                assert(paths[paths.len() - 1] == whole[at]);
            } else {
                let from = choose|from: int|
                    0 <= from < ordered_paths(front).len() && ordered_paths(front)[from]
                        == whole[at];
                assert(front.contains(ordered_paths(front)[from]));
                let old = choose|old: int| 0 <= old < front.len() && front[old] == whole[at];
                assert(paths[old] == whole[at]);
            }
        }
    }
}

/// Inserting a path leaves only that path and those that were there.
proof fn inserting_adds_one(paths: Seq<Seq<u8>>, path: Seq<u8>)
    ensures
        forall|at: int|
            0 <= at < with_path(paths, path).len() ==> (#[trigger] with_path(paths, path)[at])
                == path || paths.contains(with_path(paths, path)[at]),
    decreases paths.len(),
{
    let whole = with_path(paths, path);
    if paths.len() > 0 {
        if path_components(paths.last()) == path_components(path) {
            assert forall|at: int| 0 <= at < whole.len() implies (#[trigger] whole[at]) == path
                || paths.contains(whole[at]) by {
                assert(paths[at] == whole[at]);
            }
        } else if parts_before(path_components(paths.last()), path_components(path)) {
            assert forall|at: int| 0 <= at < whole.len() implies (#[trigger] whole[at]) == path
                || paths.contains(whole[at]) by {
                if at < paths.len() {
                    assert(paths[at] == whole[at]);
                }
            }
        } else {
            let front = paths.drop_last();
            inserting_adds_one(front, path);
            let inner = with_path(front, path);
            assert forall|at: int| 0 <= at < whole.len() implies (#[trigger] whole[at]) == path
                || paths.contains(whole[at]) by {
                if at < inner.len() {
                    assert(whole[at] == inner[at]);
                    if inner[at] != path {
                        let from = choose|from: int|
                            0 <= from < front.len() && front[from] == inner[at];
                        assert(paths[from] == whole[at]);
                    }
                } else {
                    assert(paths[paths.len() - 1] == whole[at]);
                }
            }
        }
    }
}

/// Two names are the same, or one comes before the other.
proof fn names_are_ordered(left: Seq<u8>, right: Seq<u8>)
    ensures
        left == right || bytes_before(left, right) || bytes_before(right, left),
        !bytes_before(left, left),
    decreases left.len(),
{
    if left.len() > 0 {
        if right.len() > 0 && left[0] == right[0] {
            names_are_ordered(left.skip(1), right.skip(1));
            if left.skip(1) == right.skip(1) {
                assert forall|at: int| 0 <= at < left.len() implies left[at] == right[at] by {
                    if at > 0 {
                        assert(left.skip(1)[at - 1] == right.skip(1)[at - 1]);
                    }
                }
                assert(left.len() == left.skip(1).len() + 1);
                assert(right.len() == right.skip(1).len() + 1);
                assert(left =~= right);
            }
        } else {
            names_are_ordered(left.skip(1), left.skip(1));
        }
    } else if right.len() == 0 {
        assert(left =~= right);
    }
}

/// The order of names is transitive.
proof fn names_follow(first: Seq<u8>, second: Seq<u8>, third: Seq<u8>)
    requires
        bytes_before(first, second),
        bytes_before(second, third),
    ensures
        bytes_before(first, third),
    decreases first.len(),
{
    if first.len() > 0 && first[0] == second[0] && second[0] == third[0] {
        names_follow(first.skip(1), second.skip(1), third.skip(1));
    }
}

/// Two components are the same, or one comes before the other.
proof fn components_are_ordered(left: Seq<u8>, right: Seq<u8>)
    ensures
        left == right || component_before(left, right) || component_before(right, left),
        !component_before(left, left),
{
    names_are_ordered(left, right);
}

/// The order of components is transitive.
proof fn components_follow(first: Seq<u8>, second: Seq<u8>, third: Seq<u8>)
    requires
        component_before(first, second),
        component_before(second, third),
    ensures
        component_before(first, third),
{
    if component_rank(first) == 3 {
        names_follow(first, second, third);
    }
}

/// Two paths have the same components, or one comes before the other.
proof fn parts_are_ordered(left: Seq<Seq<u8>>, right: Seq<Seq<u8>>)
    ensures
        left == right || parts_before(left, right) || parts_before(right, left),
    decreases left.len(),
{
    if left.len() > 0 && right.len() > 0 {
        if left[0] == right[0] {
            parts_are_ordered(left.skip(1), right.skip(1));
            if left.skip(1) == right.skip(1) {
                assert forall|at: int| 0 <= at < left.len() implies left[at] == right[at] by {
                    if at > 0 {
                        assert(left.skip(1)[at - 1] == right.skip(1)[at - 1]);
                    }
                }
                assert(left.len() == left.skip(1).len() + 1);
                assert(right.len() == right.skip(1).len() + 1);
                assert(left =~= right);
            }
        } else {
            components_are_ordered(left[0], right[0]);
        }
    } else if left.len() == 0 && right.len() == 0 {
        assert(left =~= right);
    }
}

/// The order of paths is transitive.
proof fn parts_follow(first: Seq<Seq<u8>>, second: Seq<Seq<u8>>, third: Seq<Seq<u8>>)
    requires
        parts_before(first, second),
        parts_before(second, third),
    ensures
        parts_before(first, third),
    decreases first.len(),
{
    if first.len() > 0 {
        if first[0] == second[0] && second[0] == third[0] {
            parts_follow(first.skip(1), second.skip(1), third.skip(1));
        } else if first[0] != second[0] && second[0] != third[0] {
            components_follow(first[0], second[0], third[0]);
            components_are_ordered(first[0], first[0]);
        }
    }
}

/// Whether paths are in order, each once.
pub open spec fn are_ordered(paths: Seq<Seq<u8>>) -> bool {
    forall|left: int, right: int|
        #![trigger paths[left], paths[right]]
        0 <= left < right < paths.len() ==> parts_before(
            path_components(paths[left]),
            path_components(paths[right]),
        )
}

/// Putting in a path keeps the order.
proof fn inserting_keeps_order(paths: Seq<Seq<u8>>, path: Seq<u8>)
    requires
        are_ordered(paths),
    ensures
        are_ordered(with_path(paths, path)),
    decreases paths.len(),
{
    if paths.len() > 0 {
        let last = paths.last();
        let whole = with_path(paths, path);
        if path_components(last) != path_components(path) {
            if parts_before(path_components(last), path_components(path)) {
                assert forall|left: int, right: int|
                    #![trigger whole[left], whole[right]]
                    0 <= left < right < whole.len() implies parts_before(
                    path_components(whole[left]),
                    path_components(whole[right]),
                ) by {
                    if right == paths.len() {
                        if left < paths.len() - 1 {
                            assert(paths[left] == whole[left]);
                            assert(paths[paths.len() - 1] == last);
                            parts_follow(
                                path_components(whole[left]),
                                path_components(last),
                                path_components(path),
                            );
                        }
                    } else {
                        assert(paths[left] == whole[left] && paths[right] == whole[right]);
                    }
                }
            } else {
                let front = paths.drop_last();
                parts_are_ordered(path_components(last), path_components(path));
                assert forall|left: int, right: int|
                    #![trigger front[left], front[right]]
                    0 <= left < right < front.len() implies parts_before(
                    path_components(front[left]),
                    path_components(front[right]),
                ) by {
                    assert(front[left] == paths[left] && front[right] == paths[right]);
                }
                inserting_keeps_order(front, path);
                inserting_adds_one(front, path);
                let inner = with_path(front, path);
                assert forall|left: int, right: int|
                    #![trigger whole[left], whole[right]]
                    0 <= left < right < whole.len() implies parts_before(
                    path_components(whole[left]),
                    path_components(whole[right]),
                ) by {
                    if right < inner.len() {
                        assert(inner[left] == whole[left] && inner[right] == whole[right]);
                    } else {
                        assert(inner[left] == whole[left]);
                        if inner[left] != path {
                            let from = choose|from: int|
                                0 <= from < front.len() && front[from] == inner[left];
                            assert(paths[from] == inner[left]);
                            assert(paths[paths.len() - 1] == last);
                        }
                    }
                }
            }
        }
    }
}

/// Ordering paths puts them in order.
proof fn ordering_orders(paths: Seq<Seq<u8>>)
    ensures
        are_ordered(ordered_paths(paths)),
    decreases paths.len(),
{
    if paths.len() > 0 {
        ordering_orders(paths.drop_last());
        inserting_keeps_order(ordered_paths(paths.drop_last()), paths.last());
    }
}

/// The entries that are listed are in the order of their components, and no two have the same ones.
pub proof fn listed_entries_are_in_order(bytes: Seq<u8>)
    requires
        listed_entries(bytes) is Some,
    ensures
        are_ordered(listed_entries(bytes)->0),
{
    let lines = split_on(vstd::utf8::decode_utf8(bytes), '\n');
    ordering_orders(listed_paths(lines)->0);
}

/// The place of the last point in a name.
pub open spec fn last_point(name: Seq<u8>) -> Option<int>
    decreases name.len(),
{
    if name.len() == 0 {
        None
    } else if name.last() == 46 {
        Some(name.len() - 1)
    } else {
        last_point(name.drop_last())
    }
}

/// The ending of the name of a file, after its last point, unless that is its first character.
pub open spec fn extension_of(path: Seq<u8>) -> Option<Seq<u8>> {
    match file_name_of(path) {
        Some(name) => match last_point(name) {
            Some(at) if at > 0 => Some(name.skip(at + 1)),
            _ => None,
        },
        None => None,
    }
}

/// The name of a file without its ending.
pub open spec fn stem_of(path: Seq<u8>) -> Option<Seq<u8>> {
    match file_name_of(path) {
        Some(name) => match last_point(name) {
            Some(at) if at > 0 => Some(name.take(at)),
            _ => Some(name),
        },
        None => None,
    }
}

/// The place of the last point in a name.
fn find_point(name: &Vec<u8>) -> (place: Option<usize>)
    ensures
        match place {
            Some(at) => last_point(name@) == Some(at as int) && at < name.len(),
            None => last_point(name@) is None,
        },
{
    let mut at: usize = name.len();
    assert(name@.take(at as int) =~= name@);
    while at > 0
        invariant
            at <= name.len(),
            last_point(name@) == last_point(name@.take(at as int)),
        decreases at,
    {
        assert(name@.take(at as int).drop_last() =~= name@.take(at - 1));
        if name[at - 1] == 46 {
            return Some(at - 1);
        }
        at = at - 1;
    }
    None
}

/// A sequence of bytes that may be absent.
pub open spec fn optional_bytes(bytes: Option<Vec<u8>>) -> Option<Seq<u8>> {
    match bytes {
        Some(bytes) => Some(bytes@),
        None => None,
    }
}

impl FilePath {
    /// The ending of the name of this file.
    pub fn extension(&self) -> (extension: Option<Vec<u8>>)
        ensures
            optional_bytes(extension) == extension_of(self@),
    {
        match self.file_name() {
            Some(name) => match find_point(&name) {
                Some(at) => if at > 0 {
                    Some(crate::paths::copy_bytes_from(&name, at + 1))
                } else {
                    None
                },
                None => None,
            },
            None => None,
        }
    }

    /// The name of this file without its ending.
    pub fn file_stem(&self) -> (stem: Option<Vec<u8>>)
        ensures
            optional_bytes(stem) == stem_of(self@),
    {
        match self.file_name() {
            Some(name) => match find_point(&name) {
                Some(at) => if at > 0 {
                    let stem = crate::paths::copy_bytes_to(&name, at);
                    Some(stem)
                } else {
                    Some(name)
                },
                None => Some(name),
            },
            None => None,
        }
    }
}

/// Whether a path is the description of an application.
pub open spec fn is_desktop_entry(path: Seq<u8>) -> bool {
    extension_of(path) == Some(vstd::utf8::encode_utf8("desktop"@))
}

/// Whether a path is nearer to the root than another: it has fewer parts, or is shorter.
pub open spec fn is_nearer(left: Seq<u8>, right: Seq<u8>) -> bool {
    path_components(left).len() < path_components(right).len() || (path_components(left).len() == path_components(
        right,
    ).len() && left.len() < right.len())
}

/// The description of an application that is nearest to the root, the first of those.
pub open spec fn nearest_desktop_entry(entries: Seq<Seq<u8>>) -> Option<Seq<u8>>
    decreases entries.len(),
{
    if entries.len() == 0 {
        None
    } else {
        let last = entries.last();
        match nearest_desktop_entry(entries.drop_last()) {
            Some(best) => if is_desktop_entry(last) && is_nearer(last, best) {
                Some(last)
            } else {
                Some(best)
            },
            None => if is_desktop_entry(last) {
                Some(last)
            } else {
                None
            },
        }
    }
}

/// Whether bytes are those of a text.
pub fn bytes_are(bytes: &Option<Vec<u8>>, text: &str) -> (are: bool)
    ensures
        are == (optional_bytes(*bytes) == Some(vstd::utf8::encode_utf8(text@))),
{
    match bytes {
        Some(bytes) => same_bytes(bytes.as_slice(), text.as_bytes()),
        None => false,
    }
}

/// Whether a path is nearer to the root than another.
fn nearer(left: &FilePath, right: &FilePath) -> (is: bool)
    ensures
        is == is_nearer(left@, right@),
{
    let one = all_components(left);
    let other = all_components(right);
    assert(byte_parts(one@).len() == one@.len());
    assert(byte_parts(other@).len() == other@.len());
    one.len() < other.len() || (one.len() == other.len() && left.bytes.len() < right.bytes.len())
}

/// The place of the description of an application that is nearest to the root.
pub fn select_desktop_entry(entries: &Vec<FilePath>) -> (place: Option<usize>)
    ensures
        match place {
            Some(at) => at < entries.len() && nearest_desktop_entry(path_views(entries@)) == Some(
                entries@[at as int]@,
            ),
            None => nearest_desktop_entry(path_views(entries@)) is None,
        },
{
    let ghost views = path_views(entries@);
    let mut best: Option<usize> = None;
    let mut at: usize = 0;
    assert(views.take(0) =~= seq![]);
    while at < entries.len()
        invariant
            at <= entries.len(),
            views == path_views(entries@),
            match best {
                Some(best) => best < entries.len() && nearest_desktop_entry(views.take(at as int))
                    == Some(entries@[best as int]@),
                None => nearest_desktop_entry(views.take(at as int)) is None,
            },
        decreases entries.len() - at,
    {
        assert(views.take(at + 1).drop_last() =~= views.take(at as int));
        assert(views[at as int] == entries@[at as int]@);
        if bytes_are(&entries[at].extension(), "desktop") {
            best = match best {
                Some(best) => if nearer(&entries[at], &entries[best]) {
                    Some(at)
                } else {
                    Some(best)
                },
                None => Some(at),
            };
        }
        at = at + 1;
    }
    assert(views.take(at as int) =~= views);
    best
}

/// Whether a name can be shown: it is not blank, not too long, and holds no control characters.
pub open spec fn is_showable(name: Seq<char>) -> bool {
    let text = trimmed(name);
    text.len() > 0 && vstd::utf8::encode_utf8(text).len() <= 512 && !has_control(text)
}

/// A name as it is shown.
pub fn sanitize_name(name: &str) -> (shown: Result<String, InspectionError>)
    ensures
        match shown {
            Ok(shown) => is_showable(name@) && shown@ == trimmed(name@),
            Err(error) => !is_showable(name@) && error == InspectionError::UnsafeName,
        },
        match shown {
            Ok(shown) => shown_name(name@) == Some(shown@),
            Err(_) => shown_name(name@) is None,
        },
{
    let chars = trim(characters(name).as_slice());
    let text = text_of(chars.as_slice());
    if chars.len() == 0 || text.as_str().as_bytes().len() > 512 || any_control(chars.as_slice()) {
        return Err(InspectionError::UnsafeName);
    }
    Ok(text)
}

/// Whether a character may stand in the name of an icon.
pub open spec fn is_icon_char(character: char) -> bool {
    'a' <= character <= 'z' || 'A' <= character <= 'Z' || '0' <= character <= '9' || character
        == '.' || character == '-' || character == '_'
}

/// Whether a name is that of an icon and of no path.
pub open spec fn is_icon_name(name: Seq<char>) -> bool {
    let text = trimmed(name);
    &&& 0 < text.len() <= 255
    &&& text != "."@ && text != ".."@
    &&& forall|at: int| 0 <= at < text.len() ==> is_icon_char(#[trigger] text[at])
}

/// The name of an icon.
pub fn sanitize_icon_name(icon: &str) -> (name: Result<String, InspectionError>)
    ensures
        match name {
            Ok(name) => is_icon_name(icon@) && name@ == trimmed(icon@),
            Err(error) => !is_icon_name(icon@) && error == InspectionError::UnsafeIconName,
        },
        match name {
            Ok(name) => icon_name_of(icon@) == Some(name@),
            Err(_) => icon_name_of(icon@) is None,
        },
{
    let chars = trim(characters(icon).as_slice());
    let text = text_of(chars.as_slice());
    if chars.len() == 0 || chars.len() > 255 || text_is(&text, ".") || text_is(&text, "..") {
        return Err(InspectionError::UnsafeIconName);
    }
    let mut at: usize = 0;
    while at < chars.len()
        invariant
            at <= chars.len(),
            chars@ == trimmed(icon@),
            forall|earlier: int| 0 <= earlier < at ==> is_icon_char(#[trigger] chars@[earlier]),
        decreases chars.len() - at,
    {
        let character = chars[at];
        if !(('a' <= character && character <= 'z') || ('A' <= character && character <= 'Z') || (
        '0' <= character && character <= '9') || character == '.' || character == '-' || character
            == '_') {
            assert(!is_icon_char(chars@[at as int]));
            return Err(InspectionError::UnsafeIconName);
        }
        at = at + 1;
    }
    Ok(text)
}

/// The name and the icon that the description of an application gives: `entry_type` and `name` are
/// what it must have, `icon` what it may.
pub fn parse_desktop_metadata(
    entry_type: &String,
    name: &String,
    icon: &Option<String>,
) -> (metadata: Result<(String, Option<String>), InspectionError>)
    ensures
        match metadata {
            Ok(metadata) => entry_type@ == "Application"@ && is_showable(name@) && metadata.0@
                == trimmed(name@) && optional_text(metadata.1) == match *icon {
                Some(icon) => if is_icon_name(icon@) {
                    Some(trimmed(icon@))
                } else {
                    None
                },
                None => None,
            },
            Err(error) => error == if entry_type@ != "Application"@ {
                InspectionError::NotAnApplication
            } else {
                InspectionError::UnsafeName
            } && (entry_type@ == "Application"@ ==> !is_showable(name@)),
        },
        match metadata {
            Ok(metadata) => described_as(entry_type@, name@, optional_text(*icon)) == Some(
                (metadata.0@, optional_text(metadata.1)),
            ),
            Err(_) => described_as(entry_type@, name@, optional_text(*icon)) is None,
        },
{
    if !text_is(entry_type, "Application") {
        return Err(InspectionError::NotAnApplication);
    }
    let shown = match sanitize_name(name.as_str()) {
        Ok(shown) => shown,
        Err(error) => {
            return Err(error);
        },
    };
    let icon = match icon {
        Some(icon) => match sanitize_icon_name(icon.as_str()) {
            Ok(icon) => Some(icon),
            Err(_) => None,
        },
        None => None,
    };
    Ok((shown, icon))
}

/// The name of a file without the ending of an AppImage.
pub open spec fn without_suffix(name: Seq<char>) -> Seq<char> {
    if finishes_with(name, ".AppImage"@) {
        name.take(name.len() - ".AppImage"@.len())
    } else if finishes_with(name, ".appimage"@) {
        name.take(name.len() - ".appimage"@.len())
    } else {
        name
    }
}

/// The name of an AppImage that gives itself none.
pub fn fallback_display_name(path: &FilePath) -> (name: Result<String, InspectionError>)
    ensures
        match file_name_of(path@) {
            Some(file) if vstd::utf8::valid_utf8(file) => {
                let stem = without_suffix(vstd::utf8::decode_utf8(file));
                match name {
                    Ok(name) => is_showable(stem) && name@ == trimmed(stem),
                    Err(error) => !is_showable(stem) && error == InspectionError::UnsafeName,
                }
            },
            _ => name == Err::<String, InspectionError>(InspectionError::NameNotText),
        },
        match name {
            Ok(name) => name_without_description(path@) == Some(name@),
            Err(_) => name_without_description(path@) is None,
        },
{
    let file = match path.file_name() {
        Some(file) => file,
        None => {
            return Err(InspectionError::NameNotText);
        },
    };
    let text = match from_utf8(file.as_slice()) {
        Some(text) => text,
        None => {
            return Err(InspectionError::NameNotText);
        },
    };
    let chars = characters(text.as_str());
    proof {
        reveal_strlit(".AppImage");
        reveal_strlit(".appimage");
    }
    let stem = if ends_with(chars.as_slice(), ".AppImage") || ends_with(
        chars.as_slice(),
        ".appimage",
    ) {
        let front = slice_of(chars.as_slice(), 0, chars.len() - 9);
        assert(front@ =~= text@.take(text@.len() - 9));
        text_of(front.as_slice())
    } else {
        text
    };
    sanitize_name(stem.as_str())
}

/// What `char::to_lowercase` makes of a character.
pub uninterp spec fn lower_chars(character: char) -> Seq<char>;

/// Whether `char::is_alphanumeric` says that a character is a letter or a digit.
pub uninterp spec fn letter_or_digit(character: char) -> bool;

/// [`char::to_lowercase`]: the lowercase form of a character, which depends on the character alone.
#[verifier::external_body]
fn lowercase_of(character: char) -> (lower: Vec<char>)
    ensures
        lower@ == lower_chars(character),
{
    character.to_lowercase().collect()
}

/// [`char::is_alphanumeric`]: whether a character is a letter or a digit, which depends on the
/// character alone.
#[verifier::external_body]
fn is_alphanumeric(character: char) -> (is: bool)
    ensures
        is == letter_or_digit(character),
{
    character.is_alphanumeric()
}

/// Whether a character is a letter or a digit.
pub open spec fn is_letter() -> spec_fn(char) -> bool {
    |character: char| letter_or_digit(character)
}

/// The letters and digits of a name in lower case: what two names of one application share.
pub open spec fn identity_of(name: Seq<char>) -> Seq<char>
    decreases name.len(),
{
    if name.len() == 0 {
        seq![]
    } else {
        identity_of(name.drop_last()) + lower_chars(name.last()).filter(is_letter())
    }
}

/// The letters and digits of a list of characters.
fn letters_of(chars: &Vec<char>) -> (letters: Vec<char>)
    ensures
        letters@ == chars@.filter(is_letter()),
{
    let mut letters: Vec<char> = Vec::new();
    let mut at: usize = 0;
    proof {
        crate::lists::filter_ends(chars@, is_letter());
    }
    while at < chars.len()
        invariant
            at <= chars.len(),
            letters@ == chars@.take(at as int).filter(is_letter()),
        decreases chars.len() - at,
    {
        proof {
            crate::lists::filter_step(chars@, is_letter(), at as int);
        }
        if is_alphanumeric(chars[at]) {
            letters.push(chars[at]);
        }
        at = at + 1;
    }
    proof {
        crate::lists::filter_ends(chars@, is_letter());
    }
    letters
}

/// The letters and digits of a name in lower case.
pub fn identity_key(name: &str) -> (key: String)
    ensures
        key@ == identity_of(name@),
{
    let chars = characters(name);
    let mut key = String::new();
    let mut at: usize = 0;
    assert(name@.take(0) =~= seq![]);
    while at < chars.len()
        invariant
            at <= chars.len(),
            chars@ == name@,
            key@ == identity_of(name@.take(at as int)),
        decreases chars.len() - at,
    {
        assert(name@.take(at + 1).drop_last() =~= name@.take(at as int));
        let letters = letters_of(&lowercase_of(chars[at]));
        key = crate::text::join(key.as_str(), text_of(letters.as_slice()).as_str());
        at = at + 1;
    }
    assert(name@.take(at as int) =~= name@);
    key
}

/// How well the size that a path names suits an icon: the smaller the better.
pub open spec fn size_rank(path: Seq<u8>) -> int {
    let text = lossy_text(path);
    if holds_part(text, "256x256"@) {
        0
    } else if holds_part(text, "128x128"@) {
        1
    } else if holds_part(text, "64x64"@) {
        2
    } else {
        3
    }
}

/// The name of an icon without its ending.
pub open spec fn icon_stem(name: Seq<char>) -> Seq<u8> {
    match stem_of(vstd::utf8::encode_utf8(name)) {
        Some(stem) if vstd::utf8::valid_utf8(stem) => stem,
        _ => vstd::utf8::encode_utf8(name),
    }
}

/// Whether a path is an icon of that name.
pub open spec fn is_png_of(path: Seq<u8>, name: Seq<char>) -> bool {
    extension_of(path) == Some(vstd::utf8::encode_utf8("png"@)) && match stem_of(path) {
        Some(stem) => vstd::utf8::valid_utf8(stem) && stem == icon_stem(name),
        None => false,
    }
}

/// Whether an icon suits better than another: by the size that its path names, then by how near
/// it is to the root.
pub open spec fn suits_better(left: Seq<u8>, right: Seq<u8>) -> bool {
    size_rank(left) < size_rank(right) || (size_rank(left) == size_rank(right) && is_nearer(
        left,
        right,
    ))
}

/// The icon of that name that suits best, the first of those.
pub open spec fn best_png(entries: Seq<Seq<u8>>, name: Seq<char>) -> Option<Seq<u8>>
    decreases entries.len(),
{
    if entries.len() == 0 {
        None
    } else {
        let last = entries.last();
        match best_png(entries.drop_last(), name) {
            Some(best) => if is_png_of(last, name) && suits_better(last, best) {
                Some(last)
            } else {
                Some(best)
            },
            None => if is_png_of(last, name) {
                Some(last)
            } else {
                None
            },
        }
    }
}

/// How well the size that a path names suits an icon.
fn rank(path: &FilePath) -> (rank: u8)
    ensures
        rank == size_rank(path@),
{
    let text = characters(from_utf8_lossy(path.bytes.as_slice()).as_str());
    if contains_part(text.as_slice(), characters("256x256").as_slice()) {
        0
    } else if contains_part(text.as_slice(), characters("128x128").as_slice()) {
        1
    } else if contains_part(text.as_slice(), characters("64x64").as_slice()) {
        2
    } else {
        3
    }
}

/// The place of the icon of that name that suits best.
pub fn select_png_entry(entries: &Vec<FilePath>, icon_name: &str) -> (place: Option<usize>)
    ensures
        match place {
            Some(at) => at < entries.len() && best_png(path_views(entries@), icon_name@) == Some(
                entries@[at as int]@,
            ),
            None => best_png(path_views(entries@), icon_name@) is None,
        },
{
    let whole = FilePath { bytes: copy_bytes(icon_name.as_bytes()) };
    let wanted = match whole.file_stem() {
        Some(stem) => if from_utf8(stem.as_slice()).is_some() {
            stem
        } else {
            copy_bytes(icon_name.as_bytes())
        },
        None => copy_bytes(icon_name.as_bytes()),
    };
    let ghost views = path_views(entries@);
    let mut best: Option<usize> = None;
    let mut at: usize = 0;
    assert(views.take(0) =~= seq![]);
    while at < entries.len()
        invariant
            at <= entries.len(),
            views == path_views(entries@),
            wanted@ == icon_stem(icon_name@),
            match best {
                Some(best) => best < entries.len() && best_png(views.take(at as int), icon_name@)
                    == Some(entries@[best as int]@),
                None => best_png(views.take(at as int), icon_name@) is None,
            },
        decreases entries.len() - at,
    {
        assert(views.take(at + 1).drop_last() =~= views.take(at as int));
        assert(views[at as int] == entries@[at as int]@);
        let entry = &entries[at];
        let stem_fits = match entry.file_stem() {
            Some(stem) => from_utf8(stem.as_slice()).is_some() && same_bytes(
                stem.as_slice(),
                wanted.as_slice(),
            ),
            None => false,
        };
        if bytes_are(&entry.extension(), "png") && stem_fits {
            best = match best {
                Some(best) => {
                    let one: u8 = rank(entry);
                    let other: u8 = rank(&entries[best]);
                    if one < other || (one == other && nearer(entry, &entries[best])) {
                        Some(at)
                    } else {
                        Some(best)
                    }
                },
                None => Some(at),
            };
        }
        at = at + 1;
    }
    assert(views.take(at as int) =~= views);
    best
}

/// A number that is stored with its highest byte first.
pub open spec fn big_endian(bytes: Seq<u8>, start: int) -> nat {
    (((bytes[start] as nat * 256 + bytes[start + 1] as nat) * 256 + bytes[start + 2] as nat) * 256
        + bytes[start + 3] as nat) as nat
}

/// Whether bytes begin as a PNG image does.
pub open spec fn begins_as_png(bytes: Seq<u8>) -> bool {
    &&& bytes[0] == 137 && bytes[1] == 80 && bytes[2] == 78 && bytes[3] == 71
    &&& bytes[4] == 13 && bytes[5] == 10 && bytes[6] == 26 && bytes[7] == 10
    &&& bytes[12] == 73 && bytes[13] == 72 && bytes[14] == 68 && bytes[15] == 82
}

/// Whether an image has a size that can be handled.
pub open spec fn is_safe_size(width: nat, height: nat) -> bool {
    0 < width <= 4096 && 0 < height <= 4096 && width * height <= 16777216
}

/// Four bytes as a number, the highest first.
pub fn read_big_endian(bytes: &[u8], start: usize) -> (number: u32)
    requires
        start + 4 <= bytes@.len(),
    ensures
        number == big_endian(bytes@, start as int),
{
    ((bytes[start] as u32 * 256 + bytes[start + 1] as u32) * 256 + bytes[start + 2] as u32) * 256
        + bytes[start + 3] as u32
}

/// Refuses bytes that are no PNG image of a size that can be handled, before they are decoded.
pub fn check_png(bytes: &[u8]) -> (valid: Result<(), InspectionError>)
    ensures
        valid == if bytes@.len() < 24 || bytes@.len() > MAX_ICON_BYTES || !begins_as_png(bytes@) {
            Err::<(), InspectionError>(InspectionError::InvalidIcon)
        } else if !is_safe_size(big_endian(bytes@, 16), big_endian(bytes@, 20)) {
            Err(InspectionError::UnsafeIconSize)
        } else {
            Ok(())
        },
        valid == png_verdict(bytes@),
{
    if bytes.len() < 24 || bytes.len() > MAX_ICON_BYTES || bytes[0] != 137 || bytes[1] != 80
        || bytes[2] != 78 || bytes[3] != 71 || bytes[4] != 13 || bytes[5] != 10 || bytes[6] != 26
        || bytes[7] != 10 || bytes[12] != 73 || bytes[13] != 72 || bytes[14] != 68 || bytes[15]
        != 82 {
        return Err(InspectionError::InvalidIcon);
    }
    let width: u32 = read_big_endian(bytes, 16);
    let height: u32 = read_big_endian(bytes, 20);
    if width == 0 || height == 0 || width > 4096 || height > 4096 {
        return Err(InspectionError::UnsafeIconSize);
    }
    assert(width * height <= 16777216) by (nonlinear_arith)
        requires
            width <= 4096,
            height <= 4096,
    ;
    Ok(())
}

/// What the SHA-256 function of the `sha2` crate makes of bytes.
pub uninterp spec fn sha256_of(bytes: Seq<u8>) -> Seq<u8>;

/// `sha2::Sha256::digest`: the SHA-256 digest of bytes, which depends on the bytes alone and has 32
/// bytes.
#[verifier::external_body]
pub(crate) fn sha256(bytes: &[u8]) -> (digest: Vec<u8>)
    ensures
        digest@ == sha256_of(bytes@),
        digest@.len() == 32,
{
    <sha2::Sha256 as sha2::Digest>::digest(bytes).to_vec()
}

/// Bytes as hexadecimal digits in lower case.
pub open spec fn hex_of(bytes: Seq<u8>) -> Seq<char>
    decreases bytes.len(),
{
    if bytes.len() == 0 {
        seq![]
    } else {
        hex_of(bytes.drop_last()) + crate::workspaces::hex_pair(bytes.last())
    }
}

/// Bytes as hexadecimal digits in lower case.
pub fn hex_text(bytes: &Vec<u8>) -> (text: String)
    ensures
        text@ == hex_of(bytes@),
{
    let mut text = String::new();
    let mut at: usize = 0;
    assert(bytes@.take(0) =~= seq![]);
    while at < bytes.len()
        invariant
            at <= bytes.len(),
            text@ == hex_of(bytes@.take(at as int)),
        decreases bytes.len() - at,
    {
        assert(bytes@.take(at + 1).drop_last() =~= bytes@.take(at as int));
        crate::workspaces::push_hex(&mut text, bytes[at]);
        at = at + 1;
    }
    assert(bytes@.take(at as int) =~= bytes@);
    text
}

/// An icon that was taken from an AppImage.
#[derive(Debug, Clone, PartialEq, Eq)]
pub struct InspectedIcon {
    pub source_name: String,
    pub content_sha256: String,
    pub png_256: Vec<u8>,
}

/// What tells a file from others.
#[derive(Debug, Clone, Copy, PartialEq, Eq, Structural)]
pub struct FileObservation {
    pub device: u64,
    pub inode: u64,
    pub size: u64,
}

/// What was found in an AppImage.
#[derive(Debug)]
pub struct InspectedAppImage {
    pub display_name: String,
    pub identity_key: String,
    pub observation: FileObservation,
    pub squashfs_offset: u64,
    pub icon: Option<InspectedIcon>,
}

/// Refuses a file that is too short to be an AppImage.
pub fn check_size(size: u64) -> (valid: Result<(), InspectionError>)
    ensures
        valid == if size < ELF_HEADER_SIZE + SQUASHFS_SUPERBLOCK_SIZE {
            Err::<(), InspectionError>(InspectionError::TooShort)
        } else {
            Ok(())
        },
        valid is Ok <==> holds_superblock(ELF_HEADER_SIZE as u64, size),
{
    if size < 160 {
        return Err(InspectionError::TooShort);
    }
    Ok(())
}

/// What was found in an AppImage: `fallback` is its name where its description, if it has one,
/// gives none.
pub fn inspect_metadata(
    fallback: String,
    described: Option<String>,
    observation: FileObservation,
    squashfs_offset: u64,
    icon: Option<InspectedIcon>,
) -> (inspected: InspectedAppImage)
    ensures
        inspected.display_name@ == match described {
            Some(name) => name@,
            None => fallback@,
        },
        inspected.identity_key@ == identity_of(inspected.display_name@),
        inspected.observation == observation,
        inspected.squashfs_offset == squashfs_offset,
        inspected.icon == icon,
        inspected.display_name@ == name_given(fallback@, optional_text(described)),
{
    let display_name = match described {
        Some(name) => name,
        None => fallback,
    };
    let identity_key = identity_key(display_name.as_str());
    InspectedAppImage { display_name, identity_key, observation, squashfs_offset, icon }
}

/// The name of the file of an icon.
pub open spec fn icon_source(path: Seq<u8>) -> Seq<char> {
    match file_name_of(path) {
        Some(name) if vstd::utf8::valid_utf8(name) => vstd::utf8::decode_utf8(name),
        _ => "icon.png"@,
    }
}

/// The icon at `path` of an AppImage, whose image was brought to its size.
pub fn inspected_icon(path: &FilePath, png_256: Vec<u8>) -> (icon: InspectedIcon)
    ensures
        icon.source_name@ == icon_source(path@),
        icon.content_sha256@ == hex_of(sha256_of(png_256@)),
        icon.content_sha256@.len() == 64,
        icon.png_256 == png_256,
{
    let source_name = match path.file_name() {
        Some(name) => match from_utf8(name.as_slice()) {
            Some(name) => name,
            None => "icon.png".to_string(),
        },
        None => "icon.png".to_string(),
    };
    let digest = sha256(png_256.as_slice());
    proof {
        hex_is_twice_as_long(digest@);
    }
    InspectedIcon { source_name, content_sha256: hex_text(&digest), png_256 }
}

/// The pixels that `image::imageops::overlay` makes of a transparent square of the side `side` and a
/// picture of the size `sides` whose upper left corner comes to `corner`, four bytes each.
pub uninterp spec fn overlaid(
    rgba: Seq<u8>,
    sides: (u32, u32),
    corner: (u32, u32),
    side: u32,
) -> Seq<u8>;

/// The byte of a channel of the pixel (`x`, `y`) of a picture of that width.
pub open spec fn channel_at(rgba: Seq<u8>, width: int, x: int, y: int, channel: int) -> u8 {
    rgba[(y * width + x) * 4 + channel]
}

/// Whether a pixel of a square is one that a picture at that corner covers.
pub open spec fn is_covered(sides: (u32, u32), corner: (u32, u32), x: int, y: int) -> bool {
    corner.0 <= x < corner.0 + sides.0 && corner.1 <= y < corner.1 + sides.1
}

/// Whether a square shows a picture at that corner: it is transparent where the picture does not
/// cover it or is transparent, and where the picture is opaque it is the picture.
pub open spec fn is_overlay(
    square: Seq<u8>,
    rgba: Seq<u8>,
    sides: (u32, u32),
    corner: (u32, u32),
    side: u32,
) -> bool {
    forall|x: int, y: int, channel: int|
        0 <= x < side && 0 <= y < side && 0 <= channel < 4 ==> {
            let shown = #[trigger] channel_at(square, side as int, x, y, channel);
            let own = |channel: int|
                channel_at(rgba, sides.0 as int, x - corner.0, y - corner.1, channel);
            &&& !is_covered(sides, corner, x, y) || own(3) == 0 ==> shown == 0
            &&& is_covered(sides, corner, x, y) && own(3) == 255 ==> shown == own(channel)
        }
}

/// The bytes of the PNG file that `image::codecs::png::PngEncoder` writes of a square picture of the
/// side `side`, four bytes each pixel.
pub uninterp spec fn encoded_png(rgba: Seq<u8>, side: u32) -> Seq<u8>;

/// `image::load_from_memory_with_format`, whose image `image::DynamicImage::resize_exact` then brings
/// to the size `sides` with the filter `image::imageops::FilterType::Lanczos3`: the pixels, four
/// bytes each, or nothing where the bytes are no PNG file. Whether they are, the size of the image
/// and its pixels depend on the bytes alone. An image of that size keeps its pixels. What they become
/// otherwise is not said: it rests on the machine's floating-point arithmetic.
#[verifier::external_body]
fn resized_png(bytes: &[u8], sides: (u32, u32)) -> (rgba: Option<Vec<u8>>)
    requires
        1 <= sides.0 <= 4096,
        1 <= sides.1 <= 4096,
    ensures
        match (rgba, png_size(bytes@)) {
            (Some(rgba), Some(size)) => rgba@.len() == sides.0 * sides.1 * 4 && (size == sides
                ==> png_pixels(bytes@) == Some(rgba@)),
            (None, None) => true,
            _ => false,
        },
{
    let image = image::load_from_memory_with_format(bytes, image::ImageFormat::Png).ok()?;
    let filter = image::imageops::FilterType::Lanczos3;
    Some(image.resize_exact(sides.0, sides.1, filter).into_rgba8().into_raw())
}

/// `image::imageops::overlay` on a transparent square: the pixels, which depend on the arguments
/// alone. There are as many as the square has. Each is transparent, all of its bytes zero, where the
/// picture does not reach it, and where the picture is opaque it is the picture's.
#[verifier::external_body]
fn overlay(rgba: Vec<u8>, sides: (u32, u32), corner: (u32, u32), side: u32) -> (square: Option<
    Vec<u8>,
>)
    requires
        1 <= sides.0 && 1 <= sides.1 && side <= 4096,
        corner.0 + sides.0 <= side,
        corner.1 + sides.1 <= side,
        rgba@.len() == sides.0 * sides.1 * 4,
    ensures
        match square {
            Some(square) => square@ == overlaid(rgba@, sides, corner, side) && square@.len() == side
                * side * 4 && is_overlay(square@, rgba@, sides, corner, side),
            None => false,
        },
{
    let picture = image::RgbaImage::from_raw(sides.0, sides.1, rgba)?;
    let mut canvas = image::RgbaImage::new(side, side);
    image::imageops::overlay(&mut canvas, &picture, i64::from(corner.0), i64::from(corner.1));
    Some(canvas.into_raw())
}

/// `image::codecs::png::PngEncoder`: the bytes of the PNG file of a square picture, which depend on
/// the arguments alone. Writing them to memory succeeds, and what is read from them is an image of
/// that size with these pixels.
#[verifier::external_body]
fn encode_png(rgba: &Vec<u8>, side: u32) -> (png: Option<Vec<u8>>)
    requires
        1 <= side <= 4096,
        rgba@.len() == side * side * 4,
    ensures
        match png {
            Some(png) => png@ == encoded_png(rgba@, side) && png_size(png@) == Some((side, side))
                && png_pixels(png@) == Some(rgba@),
            None => false,
        },
{
    let mut png = Vec::new();
    let encoder = image::codecs::png::PngEncoder::new(&mut png);
    let colour = image::ExtendedColorType::Rgba8;
    image::ImageEncoder::write_image(encoder, rgba, side, side, colour).ok()?;
    Some(png)
}

/// How wide and how high the icon of an AppImage is.
pub const NORMAL_ICON_SIZE: u32 = 256;

/// Where a picture of that size stands in the middle of an icon.
pub open spec fn middle_corner(sides: (u32, u32)) -> (u32, u32) {
    (
        ((NORMAL_ICON_SIZE - sides.0) / 2) as u32,
        ((NORMAL_ICON_SIZE - sides.1) / 2) as u32,
    )
}

/// Whether an icon shows, in the middle of a transparent square, the image that the bytes of a PNG
/// file hold, brought to the size `sides`: an image that has this size already keeps its pixels.
pub open spec fn shows_image(png: Seq<u8>, bytes: Seq<u8>, sides: (u32, u32)) -> bool {
    exists|rgba: Seq<u8>|
        {
            let square = #[trigger] overlaid(
                rgba,
                sides,
                middle_corner(sides),
                NORMAL_ICON_SIZE,
            );
            &&& png == encoded_png(square, NORMAL_ICON_SIZE)
            &&& png_pixels(png) == Some(square)
            &&& is_overlay(square, rgba, sides, middle_corner(sides), NORMAL_ICON_SIZE)
            &&& rgba.len() == sides.0 * sides.1 * 4
            &&& png_size(bytes) == Some(sides) ==> png_pixels(bytes) == Some(rgba)
        }
}

/// Whether the head of a file is that of a PNG image of a bounded length.
pub open spec fn has_png_head(bytes: Seq<u8>) -> bool {
    24 <= bytes.len() <= MAX_ICON_BYTES && begins_as_png(bytes)
}

/// Whether `sides` are those of an image of that size, scaled so that the longer one becomes the side
/// of an icon.
pub open spec fn are_icon_sides(sides: (u32, u32), width: int, height: int) -> bool {
    let longer = if width >= height {
        width
    } else {
        height
    };
    &&& is_scaled(sides.0 as int, width, longer, NORMAL_ICON_SIZE as int)
    &&& is_scaled(sides.1 as int, height, longer, NORMAL_ICON_SIZE as int)
}

/// The icon at `path` of an AppImage, from the bytes of its PNG file: the image is brought to the
/// size `sides`, which has the proportions that the head of the file gives, and put into the middle of a transparent square of 256 by 256 pixels.
pub fn normalize_png(path: &FilePath, bytes: &[u8], sides: (u32, u32)) -> (icon: Result<
    InspectedIcon,
    InspectionError,
>)
    requires
        1 <= sides.0 <= 256,
        1 <= sides.1 <= 256,
        has_png_head(bytes@) && is_safe_size(big_endian(bytes@, 16), big_endian(bytes@, 20))
            ==> are_icon_sides(
            sides,
            big_endian(bytes@, 16) as int,
            big_endian(bytes@, 20) as int,
        ),
    ensures
        icon is Ok <==> has_png_head(bytes@) && is_safe_size(
            big_endian(bytes@, 16),
            big_endian(bytes@, 20),
        ) && png_size(bytes@) is Some,
        match icon {
            Ok(icon) => {
                &&& icon.source_name@ == icon_source(path@)
                &&& icon.content_sha256@ == hex_of(sha256_of(icon.png_256@))
                &&& icon.content_sha256@.len() == 64
                &&& png_size(icon.png_256@) == Some((256u32, 256u32))
                &&& shows_image(icon.png_256@, bytes@, sides)
            },
            Err(error) => error == if !has_png_head(bytes@) {
                InspectionError::InvalidIcon
            } else if !is_safe_size(big_endian(bytes@, 16), big_endian(bytes@, 20)) {
                InspectionError::UnsafeIconSize
            } else {
                InspectionError::UndecodableIcon
            },
        },
{
    match check_png(bytes) {
        Ok(()) => {},
        Err(error) => {
            return Err(error);
        },
    }
    let rgba = match resized_png(bytes, sides) {
        Some(rgba) => rgba,
        None => {
            return Err(InspectionError::UndecodableIcon);
        },
    };
    let ghost pixels = rgba@;
    let corner: (u32, u32) = ((NORMAL_ICON_SIZE - sides.0) / 2, (NORMAL_ICON_SIZE - sides.1) / 2);
    let square = match overlay(rgba, sides, corner, NORMAL_ICON_SIZE) {
        Some(square) => square,
        None => {
            return Err(InspectionError::UndecodableIcon);
        },
    };
    match encode_png(&square, NORMAL_ICON_SIZE) {
        Some(png) => {
            proof {
                assert(corner == middle_corner(sides));
                assert(square@ == overlaid(pixels, sides, middle_corner(sides), NORMAL_ICON_SIZE));
            }
            Ok(inspected_icon(path, png))
        },
        None => Err(InspectionError::UndecodableIcon),
    }
}

/// Each byte has two hexadecimal digits.
proof fn hex_is_twice_as_long(bytes: Seq<u8>)
    ensures
        hex_of(bytes).len() == 2 * bytes.len(),
    decreases bytes.len(),
{
    if bytes.len() > 0 {
        hex_is_twice_as_long(bytes.drop_last());
    }
}

/// Adds what a process wrote to what it wrote before, up to a limit: whether it wrote more.
pub fn collect_output(output: &mut Vec<u8>, chunk: &Vec<u8>, limit: usize) -> (overflow: bool)
    requires
        old(output)@.len() <= limit,
    ensures
        overflow == (old(output)@.len() + chunk@.len() > limit),
        final(output)@ == if overflow {
            old(output)@ + chunk@.take(limit - old(output)@.len())
        } else {
            old(output)@ + chunk@
        },
        final(output)@.len() <= limit,
        (final(output)@, overflow) == output_collected(old(output)@, chunk@, limit),
{
    let room: usize = limit - output.len();
    let count: usize = if chunk.len() < room {
        chunk.len()
    } else {
        room
    };
    let ghost before = output@;
    let mut at: usize = 0;
    while at < count
        invariant
            at <= count,
            count <= chunk.len(),
            before.len() + count <= limit,
            output@ == before + chunk@.take(at as int),
        decreases count - at,
    {
        output.push(chunk[at]);
        assert(output@ =~= before + chunk@.take(at + 1));
        at = at + 1;
    }
    assert(chunk@.len() <= room ==> chunk@.take(at as int) =~= chunk@);
    chunk.len() > room
}

/// What to do with a process that was started.
#[derive(Debug, Clone, Copy, PartialEq, Eq, Structural)]
pub enum ProcessStep {
    /// It is waited for.
    Wait,
    /// It is ended, for that reason.
    Kill(InspectionError),
    /// It is over, for that reason.
    Fail(InspectionError),
    /// What it wrote is taken.
    Accept,
}

/// What to do with a process: whether it wrote too much, whether its time is over, and how it
/// ended if it did.
pub fn bounded_child_output(overflow: bool, late: bool, ended: Option<bool>) -> (step: ProcessStep)
    ensures
        step == if overflow && ended is None {
            ProcessStep::Kill(InspectionError::ParserOutputLimit)
        } else if overflow {
            ProcessStep::Fail(InspectionError::ParserOutputLimit)
        } else if late {
            ProcessStep::Kill(InspectionError::ParserTimeout)
        } else {
            match ended {
                None => ProcessStep::Wait,
                Some(true) => ProcessStep::Accept,
                Some(false) => ProcessStep::Fail(InspectionError::ParserFailed),
            }
        },
        step == process_step(overflow, late, ended),
{
    if overflow {
        return if ended.is_none() {
            ProcessStep::Kill(InspectionError::ParserOutputLimit)
        } else {
            ProcessStep::Fail(InspectionError::ParserOutputLimit)
        };
    }
    if late {
        return ProcessStep::Kill(InspectionError::ParserTimeout);
    }
    match ended {
        None => ProcessStep::Wait,
        Some(success) => if success {
            ProcessStep::Accept
        } else {
            ProcessStep::Fail(InspectionError::ParserFailed)
        },
    }
}

/// Whether the header of a file is that of an AppImage that can be run, or why it is not.
pub open spec fn header_verdict(header: Seq<u8>) -> Result<(), InspectionError> {
    if !is_appimage_header(header) {
        Err(InspectionError::InvalidHeader)
    } else if stored(header, 16, 2) != 2 && stored(header, 16, 2) != 3 {
        Err(InspectionError::InvalidType)
    } else {
        Ok(())
    }
}

/// How many bytes are read next from `offset` on of a file of that size.
pub open spec fn piece_length(offset: u64, file_size: u64) -> int {
    let end = crate::arith::min_of(file_size as int, MAX_RUNTIME_SCAN_BYTES as int);
    if offset >= end {
        0
    } else {
        crate::arith::min_of(end - offset, 1048576)
    }
}

/// Whether bytes are a PNG image of a size that can be handled, or why they are not.
pub open spec fn png_verdict(bytes: Seq<u8>) -> Result<(), InspectionError> {
    if bytes.len() < 24 || bytes.len() > MAX_ICON_BYTES || !begins_as_png(bytes) {
        Err(InspectionError::InvalidIcon)
    } else if !is_safe_size(big_endian(bytes, 16), big_endian(bytes, 20)) {
        Err(InspectionError::UnsafeIconSize)
    } else {
        Ok(())
    }
}

/// What a process wrote, up to a limit, and whether it wrote more.
pub open spec fn output_collected(output: Seq<u8>, chunk: Seq<u8>, limit: usize) -> (Seq<u8>, bool) {
    if output.len() + chunk.len() > limit {
        (output + chunk.take(limit - output.len()), true)
    } else {
        (output + chunk, false)
    }
}

/// What to do with a process.
pub open spec fn process_step(overflow: bool, late: bool, ended: Option<bool>) -> ProcessStep {
    if overflow && ended is None {
        ProcessStep::Kill(InspectionError::ParserOutputLimit)
    } else if overflow {
        ProcessStep::Fail(InspectionError::ParserOutputLimit)
    } else if late {
        ProcessStep::Kill(InspectionError::ParserTimeout)
    } else {
        match ended {
            None => ProcessStep::Wait,
            Some(true) => ProcessStep::Accept,
            Some(false) => ProcessStep::Fail(InspectionError::ParserFailed),
        }
    }
}

/// The name that an AppImage is shown under.
pub open spec fn name_given(fallback: Seq<char>, described: Option<Seq<char>>) -> Seq<char> {
    match described {
        Some(name) => name,
        None => fallback,
    }
}

/// A name as it is shown, where it can be.
pub open spec fn shown_name(name: Seq<char>) -> Option<Seq<char>> {
    if is_showable(name) {
        Some(trimmed(name))
    } else {
        None
    }
}

/// The name of an icon, where it is one.
pub open spec fn icon_name_of(name: Seq<char>) -> Option<Seq<char>> {
    if is_icon_name(name) {
        Some(trimmed(name))
    } else {
        None
    }
}

/// The name and the icon that a description gives, where it is one of an application.
pub open spec fn described_as(
    entry_type: Seq<char>,
    name: Seq<char>,
    icon: Option<Seq<char>>,
) -> Option<(Seq<char>, Option<Seq<char>>)> {
    if entry_type == "Application"@ && is_showable(name) {
        Some(
            (
                trimmed(name),
                match icon {
                    Some(icon) => icon_name_of(icon),
                    None => None,
                },
            ),
        )
    } else {
        None
    }
}

/// The name of an AppImage that gives itself none, where its file has one that can be shown.
pub open spec fn name_without_description(path: Seq<u8>) -> Option<Seq<char>> {
    match file_name_of(path) {
        Some(file) if vstd::utf8::valid_utf8(file) => shown_name(
            without_suffix(vstd::utf8::decode_utf8(file)),
        ),
        _ => None,
    }
}

/// Numbers of two and four bytes are stored with the lowest byte first; the sizes of an image are
/// stored with the highest byte first.
pub proof fn numbers_are_stored_by_bytes(bytes: Seq<u8>, start: int)
    requires
        0 <= start,
        start + 4 <= bytes.len(),
    ensures
        stored(bytes, start, 2) == bytes[start] + 0x100 * bytes[start + 1],
        stored(bytes, start, 4) == bytes[start] + 0x100 * bytes[start + 1] + 0x1_0000 * bytes[start
            + 2] + 0x100_0000 * bytes[start + 3],
        big_endian(bytes, start) == stored(
            seq![bytes[start + 3], bytes[start + 2], bytes[start + 1], bytes[start]],
            0,
            4,
        ),
{
    let two = bytes.subrange(start, start + 2);
    let four = bytes.subrange(start, start + 4);
    let turned = seq![bytes[start + 3], bytes[start + 2], bytes[start + 1], bytes[start]].subrange(
        0,
        4,
    );
    assert(two.skip(1).skip(1) =~= seq![]);
    assert(four.skip(1).skip(1).skip(1).skip(1) =~= seq![]);
    assert(turned.skip(1).skip(1).skip(1).skip(1) =~= seq![]);
    reveal_with_fuel(little_endian, 6);
}

/// A file is accepted exactly where it is an executable for this machine, in either form, that
/// carries the mark of an AppImage of the second type.
pub proof fn appimages_are_told_by_their_header(header: Seq<u8>)
    requires
        header.len() == ELF_HEADER_SIZE,
    ensures
        header_verdict(header) is Ok <==> {
            &&& header.take(4) == seq![0x7fu8, 'E' as u8, 'L' as u8, 'F' as u8]
            &&& header.subrange(4, 7) == seq![2u8, 1u8, 1u8]
            &&& header.subrange(8, 11) == seq!['A' as u8, 'I' as u8, 2u8]
            &&& header[16] == 2 || header[16] == 3
            &&& header[17] == 0
            &&& header.subrange(18, 20) == seq![0x3eu8, 0u8]
            &&& header.subrange(20, 24) == seq![1u8, 0u8, 0u8, 0u8]
            &&& header[52] >= 64 || header[53] > 0
        },
        header_verdict(header) == Err::<(), InspectionError>(InspectionError::InvalidType) ==> {
            &&& header.take(4) == seq![0x7fu8, 'E' as u8, 'L' as u8, 'F' as u8]
            &&& !(header[17] == 0 && (header[16] == 2 || header[16] == 3))
        },
{
    numbers_are_stored_by_bytes(header, 16);
    numbers_are_stored_by_bytes(header, 18);
    numbers_are_stored_by_bytes(header, 20);
    numbers_are_stored_by_bytes(header, 52);
    let first = seq![0x7fu8, 'E' as u8, 'L' as u8, 'F' as u8];
    let class = seq![2u8, 1u8, 1u8];
    let mark = seq!['A' as u8, 'I' as u8, 2u8];
    let machine = seq![0x3eu8, 0u8];
    let version = seq![1u8, 0u8, 0u8, 0u8];
    if header.take(4) == first {
        assert(header[0] == first[0] && header[1] == first[1] && header[2] == first[2] && header[3]
            == first[3]);
    }
    if header.subrange(4, 7) == class {
        assert(header[4] == class[0] && header[5] == class[1] && header[6] == class[2]);
    }
    if header.subrange(8, 11) == mark {
        assert(header[8] == mark[0] && header[9] == mark[1] && header[10] == mark[2]);
    }
    if header.subrange(18, 20) == machine {
        assert(header[18] == machine[0] && header[19] == machine[1]);
    }
    if header.subrange(20, 24) == version {
        assert(header[20] == version[0] && header[21] == version[1] && header[22] == version[2]
            && header[23] == version[3]);
    }
    if is_appimage_header(header) {
        assert(header.take(4) =~= first);
        assert(header.subrange(4, 7) =~= class);
        assert(header.subrange(8, 11) =~= mark);
        assert(header.subrange(18, 20) =~= machine);
        assert(header.subrange(20, 24) =~= version);
    }
}

/// A file system is accepted where its mark is, holds something, is of the fourth version, has blocks
/// between four kilobytes and a megabyte, and ends inside the file.
pub proof fn file_systems_end_inside_their_file(block: Seq<u8>, offset: u64, file_size: u64)
    requires
        block.len() == SQUASHFS_SUPERBLOCK_SIZE,
    ensures
        is_superblock(block, offset, file_size) ==> {
            &&& magic_at(block, 0)
            &&& stored(block, 4, 4) > 0
            &&& 4096 <= stored(block, 12, 4) <= 1048576
            &&& stored(block, 20, 2) > 0 && stored(block, 20, 2) <= 6
            &&& block[28] == 4 && block[29] == 0 && block[30] == 0 && block[31] == 0
            &&& offset + 96 <= file_size
            &&& offset + stored(block, 40, 8) <= file_size
        },
        offset + stored(block, 40, 8) > file_size ==> !is_superblock(block, offset, file_size),
        !magic_at(block, 0) ==> !is_superblock(block, offset, file_size),
        magic_at(block, 0) && stored(block, 4, 4) > 0 && stored(block, 12, 4) == 131072 && stored(
            block,
            22,
            2,
        ) == 17 && stored(block, 20, 2) == 1 && block[28] == 4 && block[29] == 0 && block[30] == 0
            && block[31] == 0 && 96 <= stored(block, 40, 8) && offset + stored(block, 40, 8)
            <= file_size ==> is_superblock(block, offset, file_size),
{
    vstd::arithmetic::power2::lemma2_to64();
    numbers_are_stored_by_bytes(block, 28);
    numbers_are_stored_by_bytes(block, 30);
    let mark = squashfs_magic();
    if magic_at(block, 0) {
        let front = block.subrange(0, 4);
        assert(block[0] == front[0] && block[1] == front[1] && block[2] == front[2] && block[3]
            == front[3]);
        assert(front == mark);
    }
    if is_superblock(block, offset, file_size) {
        assert(block.subrange(0, 4) =~= mark);
        let log = stored(block, 22, 2);
        if log > 12 {
            vstd::arithmetic::power2::lemma_pow2_strictly_increases(12, log);
        }
        if log < 20 {
            vstd::arithmetic::power2::lemma_pow2_strictly_increases(log, 20);
        }
    }
}

/// The search reads on to the end of the file or of the search, whichever comes first, a megabyte at
/// a time, and never past it.
pub proof fn searches_read_to_the_end(offset: u64, file_size: u64)
    ensures
        ({
            let length = piece_length(offset, file_size);
            &&& 0 <= length <= 1048576
            &&& length == 0 <==> offset >= file_size || offset >= MAX_RUNTIME_SCAN_BYTES
            &&& length > 0 ==> offset + length <= file_size && offset + length
                <= MAX_RUNTIME_SCAN_BYTES
            &&& 0 < length < 1048576 ==> offset + length == file_size || offset + length
                == MAX_RUNTIME_SCAN_BYTES
        }),
{
}

/// What is kept of data for the next piece is its end, three bytes of it where it has as many.
pub proof fn ends_are_kept(data: Seq<u8>)
    ensures
        data == data.take(data.len() - tail_of(data).len()) + tail_of(data),
        data.len() >= 3 ==> tail_of(data).len() == 3,
        data.len() < 3 ==> tail_of(data) == data,
{
    assert(data =~= data.take(data.len() - tail_of(data).len()) + tail_of(data));
}

/// The directory that a list is of is left out of its names.
pub proof fn listed_names_leave_the_root_out(line: Seq<char>, rest: Seq<char>)
    ensures
        trimmed(line) == "squashfs-root/"@ + rest ==> listed_name(line) == rest,
        trimmed(line) == "squashfs-root"@ ==> listed_name(line).len() == 0,
        !begins_with(trimmed(line), "squashfs-root"@) ==> listed_name(line) == trimmed(line),
{
    let long = "squashfs-root/"@;
    let short = "squashfs-root"@;
    reveal_strlit("squashfs-root/");
    reveal_strlit("squashfs-root");
    let text = trimmed(line);
    if text == long + rest {
        assert(text.take(long.len() as int) =~= long);
        assert(text.skip(long.len() as int) =~= rest);
    }
    if text == short {
        assert(text.take(short.len() as int) =~= short);
    }
    if begins_with(text, long) {
        assert(text.take(long.len() as int) == long);
        assert(text.take(short.len() as int) =~= long.take(short.len() as int));
        assert(long.take(short.len() as int) =~= short);
    }
}

/// Every line of a list that names something is listed, one line that is unsafe refuses the whole
/// list, and nothing is listed that no line names.
pub proof fn every_line_is_listed(lines: Seq<Seq<char>>, at: int)
    requires
        0 <= at < lines.len(),
    ensures
        ({
            let path = vstd::utf8::encode_utf8(listed_name(lines[at]));
            &&& path.len() > 0 && !is_inner_path(path) ==> listed_paths(lines) is None
            &&& path.len() > 0 && listed_paths(lines) is Some ==> (
            listed_paths(lines)->0).contains(path)
        }),
        listed_paths(lines) is Some ==> (listed_paths(lines)->0).len() <= lines.len(),
    decreases lines.len(),
{
    let front = lines.drop_last();
    let path = vstd::utf8::encode_utf8(listed_name(lines[at]));
    if front.len() > 0 {
        every_line_is_listed(
            front,
            if at < front.len() {
                at
            } else {
                0
            },
        );
    }
    if listed_paths(lines) is Some {
        let before = listed_paths(front)->0;
        let all = listed_paths(lines)->0;
        if at < front.len() {
            assert(front[at] == lines[at]);
            if path.len() > 0 {
                let place = choose|place: int| 0 <= place < before.len() && before[place] == path;
                assert(all[place] == path);
            }
        } else if path.len() > 0 {
            assert(all[before.len() as int] == path);
        }
    }
}

/// A path leads nowhere outside exactly where it is relative and no part of it leads up; a path of
/// the user is absolute instead.
pub proof fn paths_that_lead_up_are_refused(path: Seq<u8>)
    ensures
        path.len() > 0 && path[0] == 47 ==> !is_inner_path(path),
        is_normal_absolute(path) ==> path.len() > 0 && path[0] == 47,
        split_on(path, 47u8).contains(seq![46u8, 46u8]) ==> !is_inner_path(path)
            && !is_normal_absolute(path),
        path.len() > MAX_METADATA_PATH_BYTES ==> !is_inner_path(path) && !is_normal_absolute(path),
{
    let parts = split_on(path, 47u8);
    let up = seq![46u8, 46u8];
    if parts.contains(up) {
        let place = choose|place: int| 0 <= place < parts.len() && parts[place] == up;
        assert(up.len() == 2);
        assert(is_named_part()(parts[place]));
        let at = crate::lists::kept_is_found(parts, is_named_part(), place);
        assert(path_parts(path)[at] == up);
    }
}

/// The order of paths keeps every path that it is given, and orders them by their components.
pub proof fn sorting_keeps_every_path(paths: Seq<Seq<u8>>)
    ensures
        sorted_paths(paths).to_multiset() == paths.to_multiset(),
        forall|left: int, right: int|
            0 <= left < right < sorted_paths(paths).len() ==> !parts_before(
                path_components(#[trigger] sorted_paths(paths)[right]),
                path_components(#[trigger] sorted_paths(paths)[left]),
            ),
    decreases paths.len(),
{
    broadcast use vstd::seq_lib::group_to_multiset_ensures;

    if paths.len() > 0 {
        let front = paths.drop_last();
        sorting_keeps_every_path(front);
        adding_a_path_keeps_order(sorted_paths(front), paths.last());
        assert(paths =~= front.push(paths.last()));
        assert(sorted_paths(paths).to_multiset() =~= paths.to_multiset());
    } else {
        assert(paths =~= seq![]);
    }
}

/// Adding a path to paths in order keeps the order, and adds that path and no other.
proof fn adding_a_path_keeps_order(paths: Seq<Seq<u8>>, path: Seq<u8>)
    requires
        forall|left: int, right: int|
            0 <= left < right < paths.len() ==> !parts_before(
                path_components(#[trigger] paths[right]),
                path_components(#[trigger] paths[left]),
            ),
    ensures
        with_sorted(paths, path).len() == paths.len() + 1,
        with_sorted(paths, path).to_multiset() == paths.to_multiset().insert(path),
        forall|left: int, right: int|
            0 <= left < right < with_sorted(paths, path).len() ==> !parts_before(
                path_components(#[trigger] with_sorted(paths, path)[right]),
                path_components(#[trigger] with_sorted(paths, path)[left]),
            ),
    decreases paths.len(),
{
    broadcast use vstd::seq_lib::group_to_multiset_ensures;

    let whole = with_sorted(paths, path);
    if paths.len() == 0 || !parts_before(path_components(path), path_components(paths.last())) {
        assert forall|left: int, right: int| 0 <= left < right < whole.len() implies !parts_before(
            path_components(#[trigger] whole[right]),
            path_components(#[trigger] whole[left]),
        ) by {
            if right == paths.len() {
                let last = paths.len() - 1;
                if left < last {
                    assert(!parts_before(
                        path_components(paths[last]),
                        path_components(paths[left]),
                    ));
                    not_before_follows(
                        path_components(paths[left]),
                        path_components(paths[last]),
                        path_components(path),
                    );
                }
            } else {
                assert(!parts_before(path_components(paths[right]), path_components(paths[left])));
            }
        }
    } else {
        let front = paths.drop_last();
        assert forall|left: int, right: int| 0 <= left < right < front.len() implies !parts_before(
            path_components(#[trigger] front[right]),
            path_components(#[trigger] front[left]),
        ) by {
            assert(!parts_before(path_components(paths[right]), path_components(paths[left])));
        }
        adding_a_path_keeps_order(front, path);
        let before = with_sorted(front, path);
        assert(paths =~= front.push(paths.last()));
        assert(whole.to_multiset() =~= paths.to_multiset().insert(path));
        assert forall|left: int, right: int| 0 <= left < right < whole.len() implies !parts_before(
            path_components(#[trigger] whole[right]),
            path_components(#[trigger] whole[left]),
        ) by {
            if right == before.len() {
                assert(before.to_multiset().contains(before[left]));
                if before[left] != path {
                    assert(front.to_multiset().contains(before[left]));
                    assert(front.contains(before[left]));
                    let place = choose|place: int|
                        0 <= place < front.len() && front[place] == before[left];
                    assert(paths[place] == before[left]);
                    assert(!parts_before(
                        path_components(paths[paths.len() - 1]),
                        path_components(paths[place]),
                    ));
                } else {
                    never_both_ways(path_components(path), path_components(paths.last()));
                }
            } else {
                assert(!parts_before(path_components(before[right]), path_components(before[left])));
            }
        }
    }
}

/// Components are never before one another both ways.
proof fn never_both_ways(left: Seq<Seq<u8>>, right: Seq<Seq<u8>>)
    requires
        parts_before(left, right),
    ensures
        !parts_before(right, left),
{
    if parts_before(right, left) {
        parts_follow(left, right, left);
        parts_are_ordered(left, left);
        nothing_precedes_itself(left);
    }
}

/// No components come before themselves.
proof fn nothing_precedes_itself(parts: Seq<Seq<u8>>)
    ensures
        !parts_before(parts, parts),
    decreases parts.len(),
{
    if parts.len() > 0 {
        nothing_precedes_itself(parts.skip(1));
    }
}

/// What does not come after something does not come after what that does not come after.
proof fn not_before_follows(first: Seq<Seq<u8>>, second: Seq<Seq<u8>>, third: Seq<Seq<u8>>)
    requires
        !parts_before(second, first),
        !parts_before(third, second),
    ensures
        !parts_before(third, first),
{
    parts_are_ordered(first, second);
    parts_are_ordered(second, third);
    if parts_before(third, first) {
        if first == second {
        } else if second == third {
        } else {
            parts_follow(first, second, third);
            never_both_ways(first, third);
        }
    }
}

/// Of paths that begin alike, the components where they part decide, names by their bytes, and a
/// directory comes before what it holds.
pub proof fn paths_are_ordered_where_they_part(
    front: Seq<Seq<u8>>,
    one: Seq<u8>,
    left: Seq<Seq<u8>>,
    other: Seq<u8>,
    right: Seq<Seq<u8>>,
)
    ensures
        parts_before(front, front.push(one) + left),
        !parts_before(front.push(one) + left, front),
        one != other && one.len() > 2 && other.len() > 2 ==> parts_before(
            front.push(one) + left,
            front.push(other) + right,
        ) == bytes_before(one, other),
    decreases front.len(),
{
    let a = front.push(one) + left;
    let b = front.push(other) + right;
    assert(seq![47u8].len() == 1 && seq![46u8].len() == 1 && parent_part().len() == 2);
    if front.len() > 0 {
        let rest = front.skip(1);
        paths_are_ordered_where_they_part(rest, one, left, other, right);
        assert(a.skip(1) =~= rest.push(one) + left);
        assert(b.skip(1) =~= rest.push(other) + right);
        assert(a[0] == front[0] && b[0] == front[0]);
    } else {
        assert(a[0] == one && b[0] == other);
    }
}

/// The last point of a name is a point that none follows.
proof fn the_last_point_is_last(name: Seq<u8>)
    ensures
        match last_point(name) {
            Some(at) => 0 <= at < name.len() && name[at] == 46 && forall|next: int|
                at < next < name.len() ==> #[trigger] name[next] != 46,
            None => forall|at: int| 0 <= at < name.len() ==> #[trigger] name[at] != 46,
        },
    decreases name.len(),
{
    if name.len() > 0 && name.last() != 46 {
        let front = name.drop_last();
        the_last_point_is_last(front);
        assert(forall|at: int| 0 <= at < front.len() ==> front[at] == #[trigger] name[at]);
        assert(name[name.len() - 1] == name.last());
    }
}

/// The name of a file is its stem, a point and its ending; the ending holds no point, and a name that
/// has none, or that begins with its only point, is its own stem.
pub proof fn stems_and_endings_make_up_names(path: Seq<u8>)
    requires
        file_name_of(path) is Some,
    ensures
        ({
            let name = file_name_of(path)->0;
            &&& stem_of(path) is Some
            &&& match extension_of(path) {
                Some(ending) => {
                    &&& name == stem_of(path)->0 + seq!['.' as u8] + ending
                    &&& (stem_of(path)->0).len() > 0
                    &&& !ending.contains('.' as u8)
                },
                None => {
                    &&& stem_of(path)->0 == name
                    &&& forall|at: int| 0 < at < name.len() ==> #[trigger] name[at] != '.' as u8
                },
            }
        }),
{
    let name = file_name_of(path)->0;
    the_last_point_is_last(name);
    if let Some(ending) = extension_of(path) {
        let at = last_point(name)->0;
        assert(name =~= name.take(at) + seq![46u8] + name.skip(at + 1));
        if ending.contains(46u8) {
            let place = choose|place: int| 0 <= place < ending.len() && ending[place] == 46u8;
            assert(name[at + 1 + place] == 46);
        }
    }
}

/// The description that is taken is one, and none of the others is nearer to the root; where there is
/// one, one is taken. Fewer components are nearer, and of as many the shorter path is.
pub proof fn the_nearest_description_is_taken(entries: Seq<Seq<u8>>)
    ensures
        match nearest_desktop_entry(entries) {
            Some(best) => {
                &&& entries.contains(best)
                &&& extension_of(best) == Some(vstd::utf8::encode_utf8("desktop"@))
                &&& forall|at: int|
                    0 <= at < entries.len() && is_desktop_entry(#[trigger] entries[at])
                        ==> path_components(best).len() <= path_components(entries[at]).len() && (
                    path_components(best).len() == path_components(entries[at]).len() ==> best.len()
                        <= entries[at].len())
            },
            None => forall|at: int|
                0 <= at < entries.len() ==> extension_of(#[trigger] entries[at]) != Some(
                    vstd::utf8::encode_utf8("desktop"@),
                ),
        },
    decreases entries.len(),
{
    if entries.len() > 0 {
        let front = entries.drop_last();
        the_nearest_description_is_taken(front);
        assert(forall|at: int| 0 <= at < front.len() ==> front[at] == #[trigger] entries[at]);
        assert(entries[entries.len() - 1] == entries.last());
        if let Some(best) = nearest_desktop_entry(front) {
            let place = choose|place: int| 0 <= place < front.len() && front[place] == best;
            assert(entries[place] == best);
            assert forall|at: int|
                0 <= at < entries.len() && is_desktop_entry(#[trigger] entries[at]) implies
                path_components(nearest_desktop_entry(entries)->0).len() <= path_components(
                entries[at],
            ).len() && (path_components(nearest_desktop_entry(entries)->0).len() == path_components(
                entries[at],
            ).len() ==> (nearest_desktop_entry(entries)->0).len() <= entries[at].len()) by {
                if at < front.len() {
                    assert(is_desktop_entry(front[at]));
                }
            }
        } else {
            assert forall|at: int| 0 <= at < front.len() implies extension_of(
                #[trigger] entries[at],
            ) != Some(vstd::utf8::encode_utf8("desktop"@)) by {
                assert(extension_of(front[at]) != Some(vstd::utf8::encode_utf8("desktop"@)));
            }
        }
    }
}

/// The icon that is taken is one of that name, and none of the others names a better size; where
/// there is one, one is taken.
pub proof fn the_best_icon_is_taken(entries: Seq<Seq<u8>>, name: Seq<char>)
    ensures
        match best_png(entries, name) {
            Some(best) => {
                &&& entries.contains(best)
                &&& is_png_of(best, name)
                &&& forall|at: int|
                    0 <= at < entries.len() && is_png_of(#[trigger] entries[at], name) ==> size_rank(
                        best,
                    ) <= size_rank(entries[at]) && (size_rank(best) == size_rank(entries[at])
                        ==> path_components(best).len() <= path_components(entries[at]).len())
            },
            None => forall|at: int|
                0 <= at < entries.len() ==> !is_png_of(#[trigger] entries[at], name),
        },
    decreases entries.len(),
{
    if entries.len() > 0 {
        let front = entries.drop_last();
        the_best_icon_is_taken(front, name);
        assert(forall|at: int| 0 <= at < front.len() ==> front[at] == #[trigger] entries[at]);
        assert(entries[entries.len() - 1] == entries.last());
        if let Some(best) = best_png(front, name) {
            let place = choose|place: int| 0 <= place < front.len() && front[place] == best;
            assert(entries[place] == best);
            assert forall|at: int|
                0 <= at < entries.len() && is_png_of(#[trigger] entries[at], name) implies size_rank(
                best_png(entries, name)->0,
            ) <= size_rank(entries[at]) && (size_rank(best_png(entries, name)->0) == size_rank(
                entries[at],
            ) ==> path_components(best_png(entries, name)->0).len() <= path_components(
                entries[at],
            ).len()) by {
                if at < front.len() {
                    assert(is_png_of(front[at], name));
                }
            }
        } else {
            assert forall|at: int| 0 <= at < front.len() implies !is_png_of(
                #[trigger] entries[at],
                name,
            ) by {
                assert(!is_png_of(front[at], name));
            }
        }
    }
}

/// An icon whose path names the size that is shown suits better than any other, the next smaller
/// sizes follow, and an icon of that name has the stem of the name and the ending of a PNG image.
pub proof fn larger_icons_suit_better(left: Seq<u8>, right: Seq<u8>, name: Seq<char>)
    ensures
        holds_part(lossy_text(left), "256x256"@) && !holds_part(lossy_text(right), "256x256"@)
            ==> suits_better(left, right) && !suits_better(right, left),
        !holds_part(lossy_text(left), "256x256"@) && !holds_part(lossy_text(right), "256x256"@)
            && holds_part(lossy_text(left), "128x128"@) && !holds_part(
            lossy_text(right),
            "128x128"@,
        ) ==> suits_better(left, right) && !suits_better(right, left),
        holds_part(lossy_text(left), "64x64"@) && !holds_part(lossy_text(right), "256x256"@)
            && !holds_part(lossy_text(right), "128x128"@) && !holds_part(
            lossy_text(right),
            "64x64"@,
        ) ==> suits_better(left, right) && !suits_better(right, left),
        is_png_of(left, name) ==> extension_of(left) == Some(vstd::utf8::encode_utf8("png"@))
            && stem_of(left) == Some(icon_stem(name)),
{
}

/// A name is shown without the blanks round it, and only where something is left that is not too
/// long and holds no control characters. Names of icons are made of plain characters and are no
/// directories.
pub proof fn shown_names_are_clean(name: Seq<char>)
    ensures
        match shown_name(name) {
            Some(shown) => {
                &&& shown == trimmed(name)
                &&& shown.len() > 0
                &&& !has_control(shown)
                &&& vstd::utf8::encode_utf8(shown).len() <= 512
            },
            None => {
                ||| trimmed(name).len() == 0
                ||| has_control(trimmed(name))
                ||| vstd::utf8::encode_utf8(trimmed(name)).len() > 512
            },
        },
        match icon_name_of(name) {
            Some(icon) => {
                &&& icon == trimmed(name)
                &&& 0 < icon.len() <= 255
                &&& !icon.contains('/')
                &&& icon != seq!['.']
                &&& icon != seq!['.', '.']
            },
            None => trimmed(name).len() == 0 || trimmed(name).len() > 255 || trimmed(name)
                == seq!['.'] || trimmed(name) == seq!['.', '.'] || exists|at: int|
                0 <= at < trimmed(name).len() && !is_icon_char(#[trigger] trimmed(name)[at]),
        },
{
    reveal_strlit(".");
    reveal_strlit("..");
    assert("."@ =~= seq!['.']);
    assert(".."@ =~= seq!['.', '.']);
    if let Some(icon) = icon_name_of(name) {
        if icon.contains('/') {
            let at = choose|at: int| 0 <= at < icon.len() && icon[at] == '/';
            assert(is_icon_char(icon[at]));
        }
    }
}

/// A description is used only where it is one of an application whose name can be shown; an icon
/// that cannot be used is left out and refuses nothing.
pub proof fn descriptions_name_applications(
    entry_type: Seq<char>,
    name: Seq<char>,
    icon: Option<Seq<char>>,
)
    ensures
        match described_as(entry_type, name, icon) {
            Some(metadata) => {
                &&& entry_type == "Application"@
                &&& shown_name(name) == Some(metadata.0)
                &&& icon is Some ==> metadata.1 == icon_name_of(icon->0)
                &&& icon is None ==> metadata.1 is None
            },
            None => entry_type != "Application"@ || shown_name(name) is None,
        },
{
}

/// A file that gives itself no name is shown under the name of its file, without the ending of an
/// AppImage in either spelling; a name that a description gives comes first.
pub proof fn files_lend_their_names(stem: Seq<char>, other: Seq<char>, described: Option<Seq<char>>)
    ensures
        without_suffix(stem + ".AppImage"@) == stem,
        without_suffix(stem + ".appimage"@) == stem,
        !finishes_with(other, ".AppImage"@) && !finishes_with(other, ".appimage"@)
            ==> without_suffix(other) == other,
        described is Some ==> name_given(stem, described) == described->0,
        name_given(stem, None) == stem,
{
    reveal_strlit(".AppImage");
    reveal_strlit(".appimage");
    let one = stem + ".AppImage"@;
    let two = stem + ".appimage"@;
    assert(one.skip(one.len() - 9) =~= ".AppImage"@);
    assert(one.take(one.len() - 9) =~= stem);
    assert(two.skip(two.len() - 9) =~= ".appimage"@);
    assert(two.take(two.len() - 9) =~= stem);
}

/// What two names of one application share is made up of what their parts share, holds letters and
/// digits only, and leaves out everything that is none.
pub proof fn identities_are_made_of_letters(left: Seq<char>, right: Seq<char>)
    ensures
        identity_of(left + right) == identity_of(left) + identity_of(right),
        forall|at: int|
            0 <= at < identity_of(right).len() ==> letter_or_digit(#[trigger] identity_of(right)[at]),
        right.len() == 1 && (forall|at: int|
            0 <= at < lower_chars(right[0]).len() ==> !letter_or_digit(
                #[trigger] lower_chars(right[0])[at],
            )) ==> identity_of(right).len() == 0,
    decreases right.len(),
{
    if right.len() == 0 {
        assert(left + right =~= left);
        assert(identity_of(left) + identity_of(right) =~= identity_of(left));
    } else {
        let front = right.drop_last();
        identities_are_made_of_letters(left, front);
        assert((left + right).drop_last() =~= left + front);
        let lower = lower_chars(right.last());
        let letters = lower.filter(is_letter());
        assert(identity_of(left + right) =~= identity_of(left) + identity_of(right));
        assert forall|at: int| 0 <= at < identity_of(right).len() implies letter_or_digit(
            #[trigger] identity_of(right)[at],
        ) by {
            let before = identity_of(front).len();
            if at >= before {
                let place = crate::lists::kept_is_there(lower, is_letter(), at - before);
                assert(is_letter()(lower[place]));
            } else {
                assert(letter_or_digit(identity_of(front)[at]));
            }
        }
        if right.len() == 1 && letters.len() > 0 {
            let place = crate::lists::kept_is_there(lower, is_letter(), 0);
            assert(is_letter()(lower[place]));
            assert(letter_or_digit(lower_chars(right[0])[place]));
        }
    }
}

/// Bytes are written with two digits each, one after the other, and different bytes differ in their
/// digits.
pub proof fn digits_tell_bytes_apart(left: Seq<u8>, right: Seq<u8>)
    requires
        left.len() == right.len(),
    ensures
        hex_of(left).len() == 2 * left.len(),
        hex_of(left) == hex_of(right) ==> left == right,
        left.len() > 0 ==> hex_of(left) == hex_of(left.drop_last()) + crate::workspaces::hex_pair(
            left.last(),
        ),
    decreases left.len(),
{
    hex_is_twice_as_long(left);
    hex_is_twice_as_long(right);
    if left.len() > 0 {
        let (a, b) = (left.drop_last(), right.drop_last());
        digits_tell_bytes_apart(a, b);
        hex_is_twice_as_long(a);
        hex_is_twice_as_long(b);
        if hex_of(left) == hex_of(right) {
            let length = hex_of(a).len() as int;
            assert(hex_of(left).take(length) =~= hex_of(a));
            assert(hex_of(right).take(length) =~= hex_of(b));
            assert(hex_of(left).skip(length) =~= crate::workspaces::hex_pair(left.last()));
            assert(hex_of(right).skip(length) =~= crate::workspaces::hex_pair(right.last()));
            crate::workspaces::pairs_are_told_apart(left.last(), right.last());
            assert(left =~= a.push(left.last()));
            assert(right =~= b.push(right.last()));
        }
    } else {
        assert(left =~= right);
    }
}

/// An image is accepted where it begins as one, is no larger a file than allowed, and has at least
/// one and at most 4096 pixels each way.
pub proof fn only_images_of_a_safe_size_are_read(bytes: Seq<u8>)
    ensures
        png_verdict(bytes) is Ok ==> {
            &&& 24 <= bytes.len() <= MAX_ICON_BYTES
            &&& bytes.take(8) == seq![0x89u8, 'P' as u8, 'N' as u8, 'G' as u8, 13u8, 10u8, 26u8, 10u8]
            &&& bytes.subrange(12, 16) == seq!['I' as u8, 'H' as u8, 'D' as u8, 'R' as u8]
            &&& 1 <= big_endian(bytes, 16) <= 4096
            &&& 1 <= big_endian(bytes, 20) <= 4096
        },
        png_verdict(bytes) == Err::<(), InspectionError>(InspectionError::UnsafeIconSize)
            ==> big_endian(bytes, 16) == 0 || big_endian(bytes, 20) == 0 || big_endian(bytes, 16)
            > 4096 || big_endian(bytes, 20) > 4096,
        bytes.len() > MAX_ICON_BYTES ==> png_verdict(bytes) == Err::<(), InspectionError>(
            InspectionError::InvalidIcon,
        ),
        24 <= bytes.len() <= MAX_ICON_BYTES && bytes.take(8) == seq![
            0x89u8,
            'P' as u8,
            'N' as u8,
            'G' as u8,
            13u8,
            10u8,
            26u8,
            10u8,
        ] && bytes.subrange(12, 16) == seq!['I' as u8, 'H' as u8, 'D' as u8, 'R' as u8] && 1
            <= big_endian(bytes, 16) <= 4096 && 1 <= big_endian(bytes, 20) <= 4096 ==> png_verdict(
            bytes,
        ) is Ok,
{
    let first = seq![0x89u8, 'P' as u8, 'N' as u8, 'G' as u8, 13u8, 10u8, 26u8, 10u8];
    let second = seq!['I' as u8, 'H' as u8, 'D' as u8, 'R' as u8];
    let (width, height) = (big_endian(bytes, 16), big_endian(bytes, 20));
    if bytes.len() >= 24 {
        if begins_as_png(bytes) {
            assert(bytes.take(8) =~= first);
            assert(bytes.subrange(12, 16) =~= second);
        }
        if bytes.take(8) == first && bytes.subrange(12, 16) == second {
            let (one, two) = (bytes.take(8), bytes.subrange(12, 16));
            assert(bytes[0] == one[0] && bytes[1] == one[1] && bytes[2] == one[2] && bytes[3]
                == one[3] && bytes[4] == one[4] && bytes[5] == one[5] && bytes[6] == one[6]
                && bytes[7] == one[7]);
            assert(bytes[12] == two[0] && bytes[13] == two[1] && bytes[14] == two[2] && bytes[15]
                == two[3]);
            assert(begins_as_png(bytes));
        }
    }
    if width <= 4096 && height <= 4096 {
        assert(width * height <= 16777216) by (nonlinear_arith)
            requires
                width <= 4096,
                height <= 4096,
        ;
    }
}

/// What is kept of an output is its front, whole where it fits into the limit and as long as the limit
/// otherwise.
pub proof fn outputs_are_cut_at_the_limit(output: Seq<u8>, chunk: Seq<u8>, limit: usize)
    requires
        output.len() <= limit,
    ensures
        ({
            let (kept, overflow) = output_collected(output, chunk, limit);
            let whole = output + chunk;
            &&& overflow == (whole.len() > limit)
            &&& !overflow ==> kept == whole
            &&& overflow ==> kept == whole.take(limit as int)
        }),
{
    if output.len() + chunk.len() > limit {
        assert(output + chunk.take(limit - output.len()) =~= (output + chunk).take(limit as int));
    }
}

/// What a process wrote is taken only where it ended well, in time and within the limit. A process
/// that goes on is ended where it writes too much or its time is over, and waited for otherwise.
pub proof fn only_good_outputs_are_taken(overflow: bool, late: bool, ended: Option<bool>)
    ensures
        process_step(overflow, late, ended) is Accept <==> !overflow && !late && ended == Some(true),
        process_step(overflow, late, ended) is Wait <==> !overflow && !late && ended is None,
        overflow && ended is None ==> process_step(overflow, late, ended) == ProcessStep::Kill(
            InspectionError::ParserOutputLimit,
        ),
        overflow && ended is Some ==> process_step(overflow, late, ended) == ProcessStep::Fail(
            InspectionError::ParserOutputLimit,
        ),
        late && !overflow ==> process_step(overflow, late, ended) == ProcessStep::Kill(
            InspectionError::ParserTimeout,
        ),
        !overflow && !late && ended == Some(false) ==> process_step(overflow, late, ended)
            == ProcessStep::Fail(InspectionError::ParserFailed),
{
}

/// A picture stands in the middle of its icon: what is left over is the same on both sides, but for
/// a pixel.
pub proof fn pictures_stand_in_the_middle(sides: (u32, u32))
    requires
        sides.0 <= NORMAL_ICON_SIZE,
        sides.1 <= NORMAL_ICON_SIZE,
    ensures
        ({
            let (left, top) = middle_corner(sides);
            let right = 256 - left - sides.0;
            let bottom = 256 - top - sides.1;
            &&& left == right || left + 1 == right
            &&& top == bottom || top + 1 == bottom
        }),
{
}

/// An icon is known under the name of its file.
pub proof fn icons_are_known_by_their_file(path: Seq<u8>, name: Seq<char>)
    ensures
        file_name_of(path) == Some(vstd::utf8::encode_utf8(name)) ==> icon_source(path) == name,
        file_name_of(path) is None ==> icon_source(path) == "icon.png"@,
{
    broadcast use vstd::utf8::encode_utf8_valid_utf8, vstd::utf8::encode_utf8_decode_utf8;

}

/// Whether the first block of a file system can be at `offset` of a file of that size.
pub open spec fn holds_superblock(offset: u64, file_size: u64) -> bool {
    offset + SQUASHFS_SUPERBLOCK_SIZE <= file_size
}

/// Where a file system was found there is room for its first block, and a file is long enough to be an
/// AppImage where there is such room behind its header.
pub proof fn file_systems_have_room(block: Seq<u8>, offset: u64, file_size: u64)
    ensures
        is_superblock(block, offset, file_size) ==> holds_superblock(offset, file_size),
        holds_superblock(ELF_HEADER_SIZE as u64, file_size) <==> file_size >= 160,
        holds_superblock(offset, file_size) ==> file_size - offset >= 96,
        file_size >= 96 && offset <= file_size - 96 ==> holds_superblock(offset, file_size),
{
}

/// A mark is found wherever it is, and nowhere else.
pub proof fn marks_are_found_wherever_they_are(
    front: Seq<u8>,
    needle: Seq<u8>,
    back: Seq<u8>,
    places: Seq<usize>,
)
    requires
        are_places(front + needle + back, needle, places),
        front.len() + needle.len() + back.len() <= usize::MAX,
    ensures
        places.contains(front.len() as usize),
{
    let data = front + needle + back;
    let at = front.len() as int;
    assert(data.subrange(at, at + needle.len()) =~= needle);
    assert(occurs_at(data, needle, at));
}

/// A file that gives itself no name is shown under the name of its file without the ending of an
/// AppImage and the blanks round it.
pub proof fn nameless_files_are_shown_by_their_file(path: Seq<u8>, stem: Seq<char>)
    requires
        file_name_of(path) == Some(vstd::utf8::encode_utf8(stem + ".AppImage"@)),
    ensures
        name_without_description(path) == shown_name(stem),
{
    broadcast use vstd::utf8::encode_utf8_valid_utf8, vstd::utf8::encode_utf8_decode_utf8;

    files_lend_their_names(stem, stem, None);
}

/// The longer side of an icon fills its square, and an image that is as high as wide fills it both
/// ways.
pub proof fn the_longer_side_fills_the_icon(sides: (u32, u32), width: int, height: int)
    requires
        1 <= width <= 4096,
        1 <= height <= 4096,
        sides.0 >= 1,
        sides.1 >= 1,
        are_icon_sides(sides, width, height),
    ensures
        width >= height ==> sides.0 == 256,
        height >= width ==> sides.1 == 256,
{
    if width >= height {
        full_sides_are_full(sides.0 as int, width);
    }
    if height >= width {
        full_sides_are_full(sides.1 as int, height);
    }
}

/// The side that is as long as the longer one becomes the side of the icon.
proof fn full_sides_are_full(scaled: int, longer: int)
    requires
        1 <= longer,
        1 <= scaled,
        is_scaled(scaled, longer, longer, 256),
    ensures
        scaled == 256,
{
    let twice = 2 * (scaled * longer - 256 * longer);
    assert(twice == 2 * ((scaled - 256) * longer)) by (nonlinear_arith)
        requires
            twice == 2 * (scaled * longer - 256 * longer),
    ;
    if -longer <= twice <= longer {
        assert(scaled == 256) by (nonlinear_arith)
            requires
                -longer <= 2 * ((scaled - 256) * longer) <= longer,
                longer >= 1,
        ;
    } else {
        assert(false) by (nonlinear_arith)
            requires
                2 * 256 * longer <= longer,
                longer >= 1,
        ;
    }
}

/// The name of an icon is made of letters, digits, points, hyphens and underscores.
pub proof fn icon_names_are_plain(character: char)
    ensures
        is_icon_char(character) <==> crate::extracted::is_ascii_letter(character)
            || crate::text::is_digit(character) || character == '.' || character == '-' || character
            == '_',
{
}

} // verus!
