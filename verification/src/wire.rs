//! How the clean policy writes paths down.

use crate::error::{Error, ErrorKind};
use crate::hex;
use crate::path;
use crate::text;
use vstd::prelude::*;
use vstd::string::*;

verus! {

/// A path as the policy file holds it.
#[derive(Clone, Debug, PartialEq, Eq)]
pub struct NativeWirePath {
    pub encoding: String,
    pub bytes_hex: String,
    pub display: String,
}

/// The mathematical value of a [`NativeWirePath`].
pub struct WireView {
    pub encoding: Seq<char>,
    pub bytes_hex: Seq<char>,
    pub display: Seq<char>,
}

impl View for NativeWirePath {
    type V = WireView;

    open spec fn view(&self) -> WireView {
        WireView {
            encoding: self.encoding@,
            bytes_hex: self.bytes_hex@,
            display: self.display@,
        }
    }
}

impl NativeWirePath {
    pub fn same(&self, other: &NativeWirePath) -> (same: bool)
        ensures
            same == (self@ == other@),
    {
        text::text_eq(self.encoding.as_str(), other.encoding.as_str()) && text::text_eq(
            self.bytes_hex.as_str(),
            other.bytes_hex.as_str(),
        ) && text::text_eq(self.display.as_str(), other.display.as_str())
    }

    pub fn copy(&self) -> (copy: NativeWirePath)
        ensures
            copy == *self,
    {
        NativeWirePath {
            encoding: self.encoding.clone(),
            bytes_hex: self.bytes_hex.clone(),
            display: self.display.clone(),
        }
    }
}

/// A path with the text that shows it.
#[derive(Clone, Debug)]
pub struct ShownPath {
    pub bytes: Vec<u8>,
    pub display: String,
}

/// The wire form of a byte string.
pub open spec fn wire_of(bytes: Seq<u8>, display: Seq<char>) -> WireView {
    WireView { encoding: "unix_bytes"@, bytes_hex: hex::encoded(bytes), display }
}

fn encode(bytes: &[u8], display: &str) -> (wire: NativeWirePath)
    ensures
        wire@ == wire_of(bytes@, display@),
{
    NativeWirePath {
        encoding: "unix_bytes".to_owned(),
        bytes_hex: hex::encode_hex(bytes),
        display: display.to_owned(),
    }
}

/// The wire form of an absolute path.
pub fn encode_absolute(shown: &ShownPath) -> (result: Result<NativeWirePath, Error>)
    ensures
        match result {
            Ok(wire) => path::is_absolute(shown.bytes@) && wire@ == wire_of(
                shown.bytes@,
                shown.display@,
            ),
            Err(error) => !path::is_absolute(shown.bytes@) && error.says(
                ErrorKind::InvalidInput,
                "path must be absolute"@,
            ),
        },
{
    if !path::absolute(shown.bytes.as_slice()) {
        return Err(Error::new(ErrorKind::InvalidInput, "path must be absolute"));
    }
    Ok(encode(shown.bytes.as_slice(), shown.display.as_str()))
}

/// Whether a relative path climbs, or starts at the current directory by name.
pub open spec fn wanders(relative: Seq<u8>) -> bool {
    path::has_piece(relative, seq![path::DOT, path::DOT]) || path::piece_at(
        relative,
        seq![path::DOT],
        0,
    )
}

pub fn find_wandering(relative: &[u8]) -> (found: bool)
    ensures
        found == wanders(relative@),
{
    let dots: [u8; 2] = [path::DOT, path::DOT];
    assert(dots@ =~= seq![path::DOT, path::DOT]);
    if path::contains_piece(relative, &dots) {
        return true;
    }
    let starts: bool = relative.len() >= 1 && relative[0] == path::DOT && (relative.len() == 1
        || relative[1] == path::SEPARATOR);
    proof {
        if relative@.len() >= 1 {
            assert(relative@.subrange(0, 1) =~= seq![relative@[0]]);
            assert(seq![relative@[0]][0] == relative@[0]);
            assert(seq![path::DOT][0] == path::DOT);
        }
        assert(starts == path::piece_at(relative@, seq![path::DOT], 0));
    }
    starts
}

/// Whether a byte string is a relative path that stays below where it starts.
pub open spec fn is_clean_relative(relative: Seq<u8>) -> bool {
    relative.len() > 0 && !path::is_absolute(relative) && !wanders(relative)
}

/// Why a byte string cannot name an entry below a root.
pub open spec fn relative_fault(relative: Seq<u8>) -> Option<Seq<char>> {
    if path::is_absolute(relative) || relative.len() == 0 {
        Some("entry must be a relative path"@)
    } else if wanders(relative) {
        Some("entry must be a clean relative path"@)
    } else {
        None
    }
}

/// Takes a relative path literally, if it is clean.
pub fn normalize_literal_relative(value: &[u8]) -> (result: Result<Vec<u8>, Error>)
    ensures
        match result {
            Ok(bytes) => is_clean_relative(value@) && bytes@ == value@,
            Err(error) => error.kind == ErrorKind::InvalidInput && relative_fault(value@) == Some(
                error.message@,
            ),
        },
{
    if path::absolute(value) || value.len() == 0 {
        return Err(Error::new(ErrorKind::InvalidInput, "entry must be a relative path"));
    }
    if find_wandering(value) {
        return Err(Error::new(ErrorKind::InvalidInput, "entry must be a clean relative path"));
    }
    Ok(text::copy_bytes(value))
}

/// The wire form of a clean relative path.
pub fn encode_relative(shown: &ShownPath) -> (result: Result<NativeWirePath, Error>)
    ensures
        match result {
            Ok(wire) => is_clean_relative(shown.bytes@) && wire@ == wire_of(
                shown.bytes@,
                shown.display@,
            ),
            Err(error) => error.kind == ErrorKind::InvalidInput && relative_fault(shown.bytes@)
                == Some(error.message@),
        },
{
    match normalize_literal_relative(shown.bytes.as_slice()) {
        Err(error) => Err(error),
        Ok(bytes) => Ok(encode(bytes.as_slice(), shown.display.as_str())),
    }
}

/// The bytes of a wire path, or why there are none.
pub open spec fn wire_bytes(wire: WireView) -> Result<Seq<u8>, Seq<char>> {
    if wire.encoding != "unix_bytes"@ {
        Err("unsupported path encoding"@)
    } else {
        match hex::decoded(vstd::utf8::encode_utf8(wire.bytes_hex)) {
            Some(bytes) => Ok(bytes),
            None => Err("invalid hex path bytes"@),
        }
    }
}

/// The bytes of a wire path.
pub fn decode_wire_bytes(wire: &NativeWirePath) -> (result: Result<Vec<u8>, Error>)
    ensures
        match result {
            Ok(bytes) => wire_bytes(wire@) == Ok::<Seq<u8>, Seq<char>>(bytes@),
            Err(error) => error.kind == ErrorKind::InvalidData && wire_bytes(wire@) == Err::<
                Seq<u8>,
                Seq<char>,
            >(error.message@),
        },
{
    if !text::text_eq(wire.encoding.as_str(), "unix_bytes") {
        return Err(Error::new(ErrorKind::InvalidData, "unsupported path encoding"));
    }
    match hex::decode_hex(wire.bytes_hex.as_str()) {
        Some(bytes) => Ok(bytes),
        None => Err(Error::new(ErrorKind::InvalidData, "invalid hex path bytes")),
    }
}

/// The absolute path that a wire path holds, or why it holds none.
pub open spec fn absolute_of(wire: WireView) -> Result<Seq<u8>, Seq<char>> {
    match wire_bytes(wire) {
        Err(message) => Err(message),
        Ok(bytes) => if path::is_absolute(bytes) {
            Ok(bytes)
        } else {
            Err("root path must be absolute"@)
        },
    }
}

/// The absolute path that a wire path holds.
pub fn decode_absolute(wire: &NativeWirePath) -> (result: Result<Vec<u8>, Error>)
    ensures
        match result {
            Ok(bytes) => absolute_of(wire@) == Ok::<Seq<u8>, Seq<char>>(bytes@),
            Err(error) => error.kind == ErrorKind::InvalidData && absolute_of(wire@) == Err::<
                Seq<u8>,
                Seq<char>,
            >(error.message@),
        },
{
    match decode_wire_bytes(wire) {
        Err(error) => Err(error),
        Ok(bytes) => if path::absolute(bytes.as_slice()) {
            Ok(bytes)
        } else {
            Err(Error::new(ErrorKind::InvalidData, "root path must be absolute"))
        },
    }
}

/// The relative path that a wire path holds, or why it holds none.
pub open spec fn relative_of(wire: WireView) -> Result<Seq<u8>, Seq<char>> {
    match wire_bytes(wire) {
        Err(message) => Err(message),
        Ok(bytes) => if bytes.len() == 0 || path::is_absolute(bytes) {
            Err("entry path must be relative"@)
        } else if wanders(bytes) {
            Err("entry path traversal is not accepted"@)
        } else {
            Ok(bytes)
        },
    }
}

/// The relative path that a wire path holds.
pub fn decode_relative_bytes(wire: &NativeWirePath) -> (result: Result<Vec<u8>, Error>)
    ensures
        match result {
            Ok(bytes) => relative_of(wire@) == Ok::<Seq<u8>, Seq<char>>(bytes@),
            Err(error) => error.kind == ErrorKind::InvalidData && relative_of(wire@) == Err::<
                Seq<u8>,
                Seq<char>,
            >(error.message@),
        },
{
    let bytes: Vec<u8> = match decode_wire_bytes(wire) {
        Ok(bytes) => bytes,
        Err(error) => {
            return Err(error);
        },
    };
    if bytes.len() == 0 || path::absolute(bytes.as_slice()) {
        return Err(Error::new(ErrorKind::InvalidData, "entry path must be relative"));
    }
    if find_wandering(bytes.as_slice()) {
        return Err(Error::new(ErrorKind::InvalidData, "entry path traversal is not accepted"));
    }
    Ok(bytes)
}

/// Reading back an absolute path gives the path that was written.
pub proof fn absolute_path_survives(bytes: Seq<u8>, display: Seq<char>)
    requires
        path::is_absolute(bytes),
    ensures
        absolute_of(wire_of(bytes, display)) == Ok::<Seq<u8>, Seq<char>>(bytes),
{
    hex::decode_undoes_encode(bytes);
}

/// Reading back a clean relative path gives the path that was written.
pub proof fn relative_path_survives(bytes: Seq<u8>, display: Seq<char>)
    requires
        is_clean_relative(bytes),
    ensures
        relative_of(wire_of(bytes, display)) == Ok::<Seq<u8>, Seq<char>>(bytes),
{
    hex::decode_undoes_encode(bytes);
}

/// No path that is read back as relative leaves the root it is joined to.
pub proof fn relative_path_stays_below(wire: WireView, root: Seq<u8>)
    requires
        relative_of(wire) is Ok,
        path::is_absolute(root),
    ensures
        is_clean_relative(relative_of(wire)->Ok_0),
        path::is_within(path::joined(root, relative_of(wire)->Ok_0), root),
{
    path::joined_stays_within(root, relative_of(wire)->Ok_0);
}

} // verus!
