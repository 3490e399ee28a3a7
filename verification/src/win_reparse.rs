//! Reparse points: the data buffer that the system reads and writes, and its tags.
//!
//! The buffer starts with a fixed header of eight bytes: the tag (four bytes), the length of what
//! follows the header (two bytes) and two reserved bytes, each number with its low byte first.
//! What follows belongs to whoever owns the tag and is carried unread.

use vstd::prelude::*;
use vstd::slice::slice_subrange;

use crate::win_ads::FILE_ATTRIBUTE_REPARSE_POINT;

verus! {

/// The attribute name under which a captured reparse point is stored.
pub const REPARSE_KEY: &'static str = "windows.reparse_point";

/// The tag of junctions and volume mount points.
pub const IO_REPARSE_TAG_MOUNT_POINT: u32 = 0xA000_0003;

/// The tag of symbolic links.
pub const IO_REPARSE_TAG_SYMLINK: u32 = 0xA000_000C;

/// The length of the fixed header.
pub const REPARSE_HEADER_SIZE: usize = 8;

/// The most bytes that the system takes or gives, header and all.
pub const MAXIMUM_REPARSE_DATA_BUFFER_SIZE: usize = 16384;

/// Why a reparse buffer was refused.
#[derive(Debug, Clone, Copy, PartialEq, Eq)]
pub enum ReparseError {
    /// The system gave fewer bytes than the header has.
    Truncated(usize),
    /// The tag is a third party's, whose buffers carry an identifier that is not stored.
    ThirdPartyTag(u32),
    /// The buffer would be longer than the system takes; this is how long the data is.
    TooLarge(usize),
}

/// A third party's tag: its top bit is clear.
pub open spec fn is_third_party(tag: u32) -> bool {
    tag & 0x8000_0000 == 0
}

/// The number that four bytes spell, low byte first.
pub open spec fn number_of(bytes: Seq<u8>) -> int {
    bytes[0] + 0x100 * bytes[1] + 0x1_0000 * bytes[2] + 0x100_0000 * bytes[3]
}

/// The buffer that carries `tag` and `body`.
pub open spec fn reparse_buffer(tag: u32, body: Seq<u8>) -> Seq<u8> {
    seq![
        (tag % 0x100) as u8,
        (tag / 0x100 % 0x100) as u8,
        (tag / 0x1_0000 % 0x100) as u8,
        (tag / 0x100_0000) as u8,
        (body.len() % 0x100) as u8,
        (body.len() / 0x100) as u8,
        0u8,
        0u8,
    ] + body
}

/// Tells from its attributes whether a file or directory is a reparse point.
pub fn is_reparse_point(attributes: u32) -> (r: bool)
    ensures
        r == (attributes & FILE_ATTRIBUTE_REPARSE_POINT != 0),
{
    attributes & FILE_ATTRIBUTE_REPARSE_POINT != 0
}

/// The tags of files whose content is kept in the cloud: one base tag with any instance number
/// in bits 12 to 15.
pub open spec fn in_cloud_family(tag: u32) -> bool {
    tag & 0xFFFF_0FFF == 0x9000_001A
}

/// Tells whether `tag` marks a file whose content is kept in the cloud.
pub fn is_cloud_tag(tag: u32) -> (r: bool)
    ensures
        r == in_cloud_family(tag),
{
    (tag & 0xFFFF_0FFF) == 0x9000_001A
}

/// The cloud tags are the sixteen instances of the base tag, and no others.
pub proof fn law_cloud_family(tag: u32)
    ensures
        in_cloud_family(tag) <==> exists|instance: u32|
            instance < 16 && tag == #[trigger] (0x9000_001Au32 | (instance << 12)),
{
    let found = (tag >> 12) & 0xF;
    assert(found < 16) by (bit_vector)
        requires
            found == (tag >> 12) & 0xF,
    ;
    assert(tag & 0xFFFF_0FFF == 0x9000_001A ==> tag == 0x9000_001Au32 | (found << 12))
        by (bit_vector)
        requires
            found == (tag >> 12) & 0xF,
    ;
    assert forall|instance: u32|
        instance < 16 && tag == #[trigger] (0x9000_001Au32 | (instance << 12)) implies tag
        & 0xFFFF_0FFF == 0x9000_001A by {
        assert((0x9000_001Au32 | (instance << 12)) & 0xFFFF_0FFF == 0x9000_001A) by (bit_vector)
            requires
                instance < 16,
        ;
    }
}

/// Takes apart the first `bytes_returned` bytes of a buffer that the system has filled: the tag,
/// and what follows the header.
pub fn capture(buf: &[u8], bytes_returned: u32) -> (r: Result<(u32, Vec<u8>), ReparseError>)
    requires
        bytes_returned <= buf@.len(),
    ensures
        bytes_returned < REPARSE_HEADER_SIZE ==> r == Err::<(u32, Vec<u8>), ReparseError>(
            ReparseError::Truncated(bytes_returned as usize),
        ),
        bytes_returned >= REPARSE_HEADER_SIZE ==> (r matches Ok((tag, body)) && tag == number_of(
            buf@,
        ) && body@ == buf@.subrange(8, bytes_returned as int)),
{
    let n: usize = bytes_returned as usize;
    if n < REPARSE_HEADER_SIZE {
        return Err(ReparseError::Truncated(n));
    }
    let tag: u32 = buf[0] as u32 + 0x100 * (buf[1] as u32) + 0x1_0000 * (buf[2] as u32)
        + 0x100_0000 * (buf[3] as u32);
    let mut body: Vec<u8> = Vec::new();
    body.extend_from_slice(slice_subrange(buf, REPARSE_HEADER_SIZE, n));
    assert(body@ =~= buf@.subrange(8, n as int));
    Ok((tag, body))
}

/// The buffer with which the system is asked to stamp `tag` and `body` onto a file.
///
/// A third party's tag is refused, and so is a body that does not fit.
pub fn apply(tag: u32, body: &[u8]) -> (r: Result<Vec<u8>, ReparseError>)
    ensures
        is_third_party(tag) ==> r == Err::<Vec<u8>, ReparseError>(
            ReparseError::ThirdPartyTag(tag),
        ),
        !is_third_party(tag) && body@.len() + REPARSE_HEADER_SIZE
            > MAXIMUM_REPARSE_DATA_BUFFER_SIZE ==> r == Err::<Vec<u8>, ReparseError>(
            ReparseError::TooLarge(body@.len() as usize),
        ),
        !is_third_party(tag) && body@.len() + REPARSE_HEADER_SIZE
            <= MAXIMUM_REPARSE_DATA_BUFFER_SIZE ==> (r matches Ok(full) && full@ == reparse_buffer(
            tag,
            body@,
        )),
{
    if tag & 0x8000_0000 == 0 {
        return Err(ReparseError::ThirdPartyTag(tag));
    }
    let len: usize = body.len();
    if len > MAXIMUM_REPARSE_DATA_BUFFER_SIZE - REPARSE_HEADER_SIZE {
        return Err(ReparseError::TooLarge(len));
    }
    let mut full: Vec<u8> = Vec::new();
    full.push((tag % 0x100) as u8);
    full.push((tag / 0x100 % 0x100) as u8);
    full.push((tag / 0x1_0000 % 0x100) as u8);
    full.push((tag / 0x100_0000) as u8);
    full.push((len % 0x100) as u8);
    full.push((len / 0x100) as u8);
    full.push(0);
    full.push(0);
    full.extend_from_slice(body);
    assert(full@ =~= reparse_buffer(tag, body@));
    Ok(full)
}

/// What [`apply`] builds, [`capture`] takes apart into the same tag and body.
pub proof fn law_capture_reads_what_apply_writes(tag: u32, body: Seq<u8>)
    ensures
        reparse_buffer(tag, body).len() == body.len() + REPARSE_HEADER_SIZE,
        number_of(reparse_buffer(tag, body)) == tag,
        reparse_buffer(tag, body).subrange(8, reparse_buffer(tag, body).len() as int) == body,
{
    let full = reparse_buffer(tag, body);
    assert(full.subrange(8, full.len() as int) =~= body);
    assert(tag == tag % 0x100 + 0x100 * (tag / 0x100 % 0x100) + 0x1_0000 * (tag / 0x1_0000 % 0x100)
        + 0x100_0000 * (tag / 0x100_0000)) by (bit_vector);
}

/// What [`capture`] takes from a buffer with a zero reserved field and a true length, [`apply`]
/// builds again, bit for bit.
pub proof fn law_apply_writes_what_capture_reads(full: Seq<u8>, tag: u32)
    requires
        REPARSE_HEADER_SIZE <= full.len() <= MAXIMUM_REPARSE_DATA_BUFFER_SIZE,
        full[4] + 0x100 * full[5] == full.len() - REPARSE_HEADER_SIZE,
        full[6] == 0,
        full[7] == 0,
        tag == number_of(full),
    ensures
        reparse_buffer(tag, full.subrange(8, full.len() as int)) == full,
{
    let body = full.subrange(8, full.len() as int);
    let (a, b, c, d) = (full[0], full[1], full[2], full[3]);
    assert(tag % 0x100 == a && tag / 0x100 % 0x100 == b && tag / 0x1_0000 % 0x100 == c && tag
        / 0x100_0000 == d) by (nonlinear_arith)
        requires
            tag == a + 0x100 * b + 0x1_0000 * c + 0x100_0000 * d,
    ;
    assert(reparse_buffer(tag, body) =~= full);
}

/// The buffer byte by byte: the four bytes of the tag from the lowest to the highest, the two bytes of
/// the length of the data from the lower to the higher, two zeros, and the data from the ninth byte
/// on.
pub proof fn law_buffer_is_laid_out_from_the_low_bytes(tag: u32, body: Seq<u8>)
    requires
        body.len() < 0x1_0000,
    ensures
        ({
            let full = reparse_buffer(tag, body);
            let len = body.len() as u32;
            &&& full.len() == 8 + body.len()
            &&& full[0] == tag & 0xFF
            &&& full[1] == (tag >> 8) & 0xFF
            &&& full[2] == (tag >> 16) & 0xFF
            &&& full[3] == tag >> 24
            &&& full[4] == len & 0xFF
            &&& full[5] == len >> 8
            &&& full[6] == 0 && full[7] == 0
            &&& forall|i: int| 0 <= i < body.len() ==> full[i + 8] == #[trigger] body[i]
        }),
{
    let len = body.len() as u32;
    assert(tag & 0xFF == tag % 0x100 && (tag >> 8) & 0xFF == tag / 0x100 % 0x100 && (tag >> 16)
        & 0xFF == tag / 0x1_0000 % 0x100 && tag >> 24 == tag / 0x100_0000 && tag / 0x100_0000
        < 0x100) by (bit_vector);
    assert(len & 0xFF == len % 0x100 && len >> 8 == len / 0x100 && len / 0x100 < 0x100)
        by (bit_vector)
        requires
            len < 0x1_0000,
    ;
}

/// The tag that is taken from a buffer has the first byte as its lowest and the fourth as its highest.
pub proof fn law_tag_is_read_from_the_low_byte(full: Seq<u8>, tag: u32)
    requires
        full.len() >= 4,
        tag == number_of(full),
    ensures
        tag & 0xFF == full[0],
        (tag >> 8) & 0xFF == full[1],
        (tag >> 16) & 0xFF == full[2],
        tag >> 24 == full[3],
{
    let (a, b, c, d) = (full[0], full[1], full[2], full[3]);
    assert(tag % 0x100 == a && tag / 0x100 % 0x100 == b && tag / 0x1_0000 % 0x100 == c && tag
        / 0x100_0000 == d) by (nonlinear_arith)
        requires
            tag == a + 0x100 * b + 0x1_0000 * c + 0x100_0000 * d,
    ;
    assert(tag & 0xFF == tag % 0x100 && (tag >> 8) & 0xFF == tag / 0x100 % 0x100 && (tag >> 16)
        & 0xFF == tag / 0x1_0000 % 0x100 && tag >> 24 == tag / 0x100_0000) by (bit_vector);
}

/// The tags that are refused are those below 2147483648, and the most that the system takes are 16384
/// bytes, eight of which are the header.
pub proof fn law_third_party_tags_and_limits(tag: u32)
    ensures
        is_third_party(tag) <==> tag < 0x8000_0000,
        REPARSE_HEADER_SIZE == 8,
        MAXIMUM_REPARSE_DATA_BUFFER_SIZE == 16_384,
        !is_third_party(IO_REPARSE_TAG_MOUNT_POINT),
        !is_third_party(IO_REPARSE_TAG_SYMLINK),
{
    assert((tag & 0x8000_0000 == 0) <==> tag < 0x8000_0000) by (bit_vector);
    assert(0xA000_0003u32 & 0x8000_0000 != 0) by (bit_vector);
    assert(0xA000_000Cu32 & 0x8000_0000 != 0) by (bit_vector);
}

} // verus!
