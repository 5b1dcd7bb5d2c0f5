//! What the header of an executable says about where it runs.

use crate::error::{Error, ErrorKind};
use crate::text;
use crate::version;
use vstd::prelude::*;

verus! {

/// How many leading bytes of an executable are read first.
pub const HEADER_BYTES: usize = 32;

/// How many bytes of load commands are read at most.
pub const MAX_COMMAND_BYTES: u32 = 1048576;

/// Where an executable runs.
#[derive(Clone, Debug)]
pub struct TargetMetadata {
    pub target_os: String,
    pub target_arch: String,
    pub min_macos: Option<String>,
    pub verified_macho: bool,
}

/// What the header of an executable asks for next.
#[derive(Clone, Copy, Debug, PartialEq, Eq, Structural)]
pub enum Header {
    /// Not a Mach-O image: the running program's own target stands in.
    Foreign,
    /// A thin Mach-O image, with `command_bytes` bytes of load commands to read.
    Thin { cpu: u32, commands: u32, command_bytes: u32 },
}

/// The little-endian number in four bytes.
pub open spec fn le_u32(bytes: Seq<u8>, at: int) -> nat {
    (bytes[at] + bytes[at + 1] * 0x100 + bytes[at + 2] * 0x10000 + bytes[at + 3] * 0x1000000) as nat
}

/// The big-endian number in four bytes.
pub open spec fn be_u32(bytes: Seq<u8>, at: int) -> nat {
    (bytes[at + 3] + bytes[at + 2] * 0x100 + bytes[at + 1] * 0x10000 + bytes[at] * 0x1000000) as nat
}

fn read_le_u32(bytes: &[u8], at: usize) -> (value: u32)
    requires
        at + 4 <= bytes@.len(),
    ensures
        value == le_u32(bytes@, at as int),
{
    bytes[at] as u32 + bytes[at + 1] as u32 * 0x100 + bytes[at + 2] as u32 * 0x10000 + bytes[at
        + 3] as u32 * 0x1000000
}

fn read_be_u32(bytes: &[u8], at: usize) -> (value: u32)
    requires
        at + 4 <= bytes@.len(),
    ensures
        value == be_u32(bytes@, at as int),
{
    bytes[at] as u32 * 0x1000000 + bytes[at + 1] as u32 * 0x10000 + bytes[at + 2] as u32 * 0x100
        + bytes[at + 3] as u32
}

/// Whether the header starts a universal image, in either byte order.
pub open spec fn is_fat(header: Seq<u8>) -> bool {
    let magic = be_u32(header, 0);
    magic == 0xcafebabe || magic == 0xbebafeca || magic == 0xcafebabf || magic == 0xbfbafeca
}

/// Whether the header starts a thin little-endian image.
pub open spec fn is_thin(header: Seq<u8>) -> bool {
    let magic = le_u32(header, 0);
    magic == 0xfeedface || magic == 0xfeedfacf
}

/// Reads the first bytes of an executable.
pub fn read_header(header: &[u8]) -> (result: Result<Header, Error>)
    requires
        header@.len() == HEADER_BYTES,
    ensures
        match result {
            Ok(Header::Foreign) => !is_fat(header@) && !is_thin(header@),
            Ok(Header::Thin { cpu, commands, command_bytes }) => {
                &&& !is_fat(header@)
                &&& is_thin(header@)
                &&& cpu == le_u32(header@, 4)
                &&& commands == le_u32(header@, 16)
                &&& command_bytes == le_u32(header@, 20)
                &&& command_bytes <= MAX_COMMAND_BYTES
            },
            Err(error) => {
                ||| is_fat(header@) && error.says(
                    ErrorKind::InvalidData,
                    "universal/fat Mach-O binaries are unsupported for local update"@,
                )
                ||| !is_fat(header@) && is_thin(header@) && le_u32(header@, 20) > MAX_COMMAND_BYTES
                    && error.says(
                    ErrorKind::InvalidData,
                    "Mach-O load commands exceed supported bounds"@,
                )
            },
        },
{
    let magic: u32 = read_be_u32(header, 0);
    if magic == 0xcafebabe || magic == 0xbebafeca || magic == 0xcafebabf || magic == 0xbfbafeca {
        return Err(
            Error::new(
                ErrorKind::InvalidData,
                "universal/fat Mach-O binaries are unsupported for local update",
            ),
        );
    }
    let le_magic: u32 = read_le_u32(header, 0);
    if le_magic != 0xfeedface && le_magic != 0xfeedfacf {
        return Ok(Header::Foreign);
    }
    let command_bytes: u32 = read_le_u32(header, 20);
    if command_bytes > MAX_COMMAND_BYTES {
        return Err(
            Error::new(ErrorKind::InvalidData, "Mach-O load commands exceed supported bounds"),
        );
    }
    Ok(
        Header::Thin {
            cpu: read_le_u32(header, 4),
            commands: read_le_u32(header, 16),
            command_bytes,
        },
    )
}

/// What walking the load commands finds.
pub enum Walk {
    /// The packed minimum system version that the last version command holds.
    Found(Option<u32>),
    /// A command starts less than eight bytes before the end.
    Truncated,
    /// A command is shorter than its own header, or reaches past the end.
    BadSize,
}

/// The packed minimum system version in the command at `offset`, if it holds one:
/// `LC_BUILD_VERSION` keeps it in its fourth word, `LC_VERSION_MIN_MACOSX` in its third.
pub open spec fn version_in(commands: Seq<u8>, offset: int) -> Option<u32> {
    let kind = le_u32(commands, offset);
    let size = le_u32(commands, offset + 4);
    if kind == 0x32 && size >= 16 {
        Some(le_u32(commands, offset + 12) as u32)
    } else if kind == 0x24 && size >= 16 {
        Some(le_u32(commands, offset + 8) as u32)
    } else {
        None
    }
}

/// Walks `count` load commands from `offset`, with what was found before.
pub open spec fn walk(commands: Seq<u8>, offset: int, count: nat, found: Option<u32>) -> Walk
    decreases count,
{
    if count == 0 {
        Walk::Found(found)
    } else if offset + 8 > commands.len() {
        Walk::Truncated
    } else {
        let size = le_u32(commands, offset + 4);
        if size < 8 || offset + size > commands.len() {
            Walk::BadSize
        } else {
            let here = version_in(commands, offset);
            walk(
                commands,
                offset + size,
                (count - 1) as nat,
                if here is Some {
                    here
                } else {
                    found
                },
            )
        }
    }
}

/// The architectures that an update supports.
pub open spec fn arch_name(cpu: u32) -> Option<Seq<char>> {
    if cpu == 0x01000007 {
        Some("x86_64"@)
    } else if cpu == 0x0100000c {
        Some("aarch64"@)
    } else {
        None
    }
}

/// What the load commands of a thin image say.
pub fn read_commands(
    cpu: u32,
    count: u32,
    commands: &[u8],
    compiled: &TargetMetadata,
) -> (result: Result<TargetMetadata, Error>)
    requires
        commands@.len() <= MAX_COMMAND_BYTES,
    ensures
        match walk(commands@, 0, count as nat, None) {
            Walk::Truncated => result matches Err(error) && error.says(
                ErrorKind::InvalidData,
                "truncated Mach-O load command header"@,
            ),
            Walk::BadSize => result matches Err(error) && error.says(
                ErrorKind::InvalidData,
                "invalid Mach-O load command size"@,
            ),
            Walk::Found(min) => match arch_name(cpu) {
                None => result matches Err(error) && error.says(
                    ErrorKind::InvalidData,
                    "unsupported Mach-O architecture"@,
                ),
                Some(arch) => {
                    &&& result matches Ok(target)
                    &&& target.target_os@ == "macos"@
                    &&& target.target_arch@ == arch
                    &&& target.verified_macho
                    &&& text::opt_text(target.min_macos) == match min {
                        Some(raw) => Some(version::packed_version(raw)),
                        None => text::opt_text(compiled.min_macos),
                    }
                },
            },
        },
{
    let mut min: Option<u32> = None;
    let mut offset: usize = 0;
    let mut left: u32 = count;
    while left > 0
        invariant
            commands@.len() <= MAX_COMMAND_BYTES,
            offset <= commands@.len(),
            walk(commands@, 0, count as nat, None) == walk(
                commands@,
                offset as int,
                left as nat,
                min,
            ),
        decreases left,
    {
        if offset + 8 > commands.len() {
            return Err(Error::new(ErrorKind::InvalidData, "truncated Mach-O load command header"));
        }
        let kind: u32 = read_le_u32(commands, offset);
        let size: u32 = read_le_u32(commands, offset + 4);
        if size < 8 || size as usize > commands.len() - offset {
            return Err(Error::new(ErrorKind::InvalidData, "invalid Mach-O load command size"));
        }
        if kind == 0x32 && size >= 16 {
            min = Some(read_le_u32(commands, offset + 12));
        } else if kind == 0x24 && size >= 16 {
            min = Some(read_le_u32(commands, offset + 8));
        }
        offset = offset + size as usize;
        left = left - 1;
    }
    let target_arch: &str = if cpu == 0x01000007 {
        "x86_64"
    } else if cpu == 0x0100000c {
        "aarch64"
    } else {
        return Err(Error::new(ErrorKind::InvalidData, "unsupported Mach-O architecture"));
    };
    let min_macos: Option<String> = match min {
        Some(raw) => Some(version::decode_version(raw)),
        None => match &compiled.min_macos {
            Some(value) => Some(value.clone()),
            None => None,
        },
    };
    Ok(
        TargetMetadata {
            target_os: "macos".to_owned(),
            target_arch: target_arch.to_owned(),
            min_macos,
            verified_macho: true,
        },
    )
}

} // verus!
