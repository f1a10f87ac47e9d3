//! Firmware-image validity bookkeeping.
//!
//! The bootloader keeps the active image only if the running firmware durably
//! marks itself valid; otherwise the next boot rolls back. The image carries a
//! fixed-layout header at the start of the code slot and a footer near its end.
//! The offsets and encodings here are a binding contract with the bootloader.
//!
//! Reading and writing the backing flash is left to the caller: `get` parses
//! the two regions from plain bytes, and `mark_valid` returns the bytes that
//! must be programmed at the footer's validity-flag offset.

use vstd::prelude::*;

verus! {

/// Length in bytes of the image header region.
pub const HEADER_LEN: usize = 16;

/// Length in bytes of the image footer region.
pub const FOOTER_LEN: usize = 8;

/// Magic number that opens a recognized image header.
pub const IMAGE_MAGIC: u32 = 0x96f3b83d;

/// The one header format version this firmware understands.
pub const SUPPORTED_FORMAT_VERSION: u32 = 1;

/// Footer flag byte for an image that has been marked valid.
pub const FLAG_VALID: u8 = 0x01;

/// Footer flag byte for an image not yet marked valid (erased flash).
pub const FLAG_NOT_VALID: u8 = 0xff;

/// The little-endian 32-bit word at offset `off` of `s`.
pub open spec fn le32(s: Seq<u8>, off: int) -> int {
    s[off] + s[off + 1] * 0x100 + s[off + 2] * 0x1_0000 + s[off + 3] * 0x100_0000
}

/// A header region is recognized when its magic and format version match the
/// bootloader contract.
pub open spec fn header_recognized(h: Seq<u8>) -> bool {
    le32(h, 0) == IMAGE_MAGIC && le32(h, 12) == SUPPORTED_FORMAT_VERSION
}

/// A footer region is recognized when its flag byte is one of the two states
/// the bootloader can have left it in.
pub open spec fn footer_recognized(f: Seq<u8>) -> bool {
    f[0] == FLAG_VALID || f[0] == FLAG_NOT_VALID
}

/// Boot metadata the firmware cannot proceed without; every variant is fatal.
#[derive(Clone, Copy, Debug, PartialEq, Eq, Structural)]
pub enum BootError {
    /// The header magic word is not `IMAGE_MAGIC`.
    HeaderMagic,
    /// The header format version is not `SUPPORTED_FORMAT_VERSION`.
    HeaderVersion,
    /// The footer flag byte is neither `FLAG_VALID` nor `FLAG_NOT_VALID`.
    FooterFlag,
}

/// Image header: read once at boot, immutable afterwards.
#[derive(Clone, Copy, Debug, PartialEq, Eq, Structural)]
pub struct MCUBootHeader {
    pub magic: u32,
    pub load_address: u32,
    pub image_size: u32,
    pub format_version: u32,
}

/// Image footer: the validity flag the application may commit, plus the
/// integrity word carried through for the bootloader.
#[derive(Clone, Copy, Debug, PartialEq, Eq, Structural)]
pub struct MCUBootFooter {
    pub is_valid: bool,
    pub digest: u32,
}

/// Parsed boot metadata of the running image.
#[derive(Clone, Copy, Debug, PartialEq, Eq, Structural)]
pub struct MCUBoot {
    pub header: MCUBootHeader,
    pub footer: MCUBootFooter,
}

/// Reads the little-endian 32-bit word at `off`.
fn read_le32(bytes: &[u8], off: usize) -> (r: u32)
    requires
        off + 4 <= bytes@.len(),
    ensures
        r as int == le32(bytes@, off as int),
{
    let b0 = bytes[off] as u32;
    let b1 = bytes[off + 1] as u32;
    let b2 = bytes[off + 2] as u32;
    let b3 = bytes[off + 3] as u32;
    b0 + b1 * 0x100 + b2 * 0x1_0000 + b3 * 0x100_0000
}

/// The parse `get` owes for given header and footer regions: the error for the
/// first unrecognized field in checking order, else the fully populated record.
pub open spec fn parse_result(h: Seq<u8>, f: Seq<u8>) -> Result<MCUBoot, BootError> {
    if le32(h, 0) != IMAGE_MAGIC {
        Err(BootError::HeaderMagic)
    } else if le32(h, 12) != SUPPORTED_FORMAT_VERSION {
        Err(BootError::HeaderVersion)
    } else if f[0] != FLAG_VALID && f[0] != FLAG_NOT_VALID {
        Err(BootError::FooterFlag)
    } else {
        Ok(
            (MCUBoot {
                header: (MCUBootHeader {
                    magic: IMAGE_MAGIC,
                    load_address: le32(h, 4) as u32,
                    image_size: le32(h, 8) as u32,
                    format_version: SUPPORTED_FORMAT_VERSION,
                }),
                footer: (MCUBootFooter { is_valid: f[0] == FLAG_VALID, digest: le32(f, 4) as u32 }),
            }),
        )
    }
}

/// Relates the record before and after a validity commit: the flag is set and
/// nothing else changes.
pub open spec fn marked_valid(pre: MCUBoot, post: MCUBoot) -> bool {
    &&& post.header == pre.header
    &&& post.footer.is_valid == true
    &&& post.footer.digest == pre.footer.digest
}

impl MCUBoot {
    /// Parses the header and footer regions of the active code slot. An
    /// unrecognized magic, version, or flag field is fatal to the caller:
    /// no partially populated record is ever produced.
    pub fn get(header_bytes: &[u8], footer_bytes: &[u8]) -> (r: Result<MCUBoot, BootError>)
        requires
            header_bytes@.len() == HEADER_LEN,
            footer_bytes@.len() == FOOTER_LEN,
        ensures
            r == parse_result(header_bytes@, footer_bytes@),
            r is Ok <==> header_recognized(header_bytes@) && footer_recognized(footer_bytes@),
    {
        let magic = read_le32(header_bytes, 0);
        if magic != IMAGE_MAGIC {
            return Err(BootError::HeaderMagic);
        }
        let format_version = read_le32(header_bytes, 12);
        if format_version != SUPPORTED_FORMAT_VERSION {
            return Err(BootError::HeaderVersion);
        }
        let flag = footer_bytes[0];
        if flag != FLAG_VALID && flag != FLAG_NOT_VALID {
            return Err(BootError::FooterFlag);
        }
        Ok(
            MCUBoot {
                header: MCUBootHeader {
                    magic,
                    load_address: read_le32(header_bytes, 4),
                    image_size: read_le32(header_bytes, 8),
                    format_version,
                },
                footer: MCUBootFooter { is_valid: flag == FLAG_VALID, digest: read_le32(footer_bytes, 4) },
            },
        )
    }

    /// Commits validity: sets the footer flag and returns the bytes to program
    /// at the footer's flag offset — a single byte, the smallest atomically
    /// programmable unit, so an interrupted write cannot leave the flag torn.
    /// The application has no operation that clears the flag again.
    pub fn mark_valid(&mut self) -> (w: Vec<u8>)
        ensures
            marked_valid(*old(self), *final(self)),
            w@ == seq![FLAG_VALID],
    {
        self.footer.is_valid = true;
        let mut w: Vec<u8> = Vec::new();
        w.push(FLAG_VALID);
        w
    }
}

/// Committing validity is idempotent: on a record whose flag is already set,
/// a further `mark_valid` leaves no observable state change.
pub proof fn lemma_mark_valid_idempotent(pre: MCUBoot, post: MCUBoot)
    requires
        pre.footer.is_valid,
        marked_valid(pre, post),
    ensures
        post == pre,
{
}

} // verus!
