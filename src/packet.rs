use crate::decimal::{decimal_value, parse_decimal};
use byteorder::{BigEndian, ByteOrder};
use vstd::prelude::*;

verus! {

/// First byte of a kick packet, which also carries the status reply.
pub const KICK_IDENTIFIER: u8 = 0xFF;

/// The section sign that opens the reply text.
pub const SECTION_SIGN: u16 = 0x00A7;

/// The `1` that follows the section sign.
pub const MARKER_ONE: u16 = 0x0031;

/// The unit that ends a field.
pub const NULL_UNIT: u16 = 0x0000;

/// Bytes before the reply text: the identifier and the declared length.
pub const HEADER_LEN: usize = 3;

/// Offset of the first field, after the three marker units.
pub const FIELDS_START: usize = 9;

/// Why a reply could not be decoded.
#[derive(Debug, Clone, Copy, PartialEq, Eq, Structural)]
pub enum DecodeError {
    /// The first byte is missing or is not the kick identifier.
    InvalidIdentifier,
    /// The declared length disagrees with the buffer, or the text ends
    /// before one of its fields begins.
    LengthMismatch,
    /// The reply does not open with the section sign, `1` and a null unit.
    InvalidMarker,
    /// A field's units are not valid UTF-16.
    EncodingError,
    /// A numeric field does not hold an unsigned decimal number.
    NumericParseError,
}

/// A decoded status reply.
#[derive(Debug, PartialEq, Eq)]
pub struct MinecraftServer {
    pub protocol_version: usize,
    pub server_version: String,
    pub motd: String,
    pub player_count: usize,
    pub max_players: usize,
}

/// The mathematical value of a decoded reply.
pub ghost struct ServerInfo {
    pub protocol_version: usize,
    pub server_version: Seq<char>,
    pub motd: Seq<char>,
    pub player_count: usize,
    pub max_players: usize,
}

impl View for MinecraftServer {
    type V = ServerInfo;

    open spec fn view(&self) -> ServerInfo {
        ServerInfo {
            protocol_version: self.protocol_version,
            server_version: self.server_version@,
            motd: self.motd@,
            player_count: self.player_count,
            max_players: self.max_players,
        }
    }
}

/// The big-endian 16-bit value of the two bytes at `at`.
pub open spec fn be16(p: Seq<u8>, at: int) -> int {
    p[at] as int * 256 + p[at + 1] as int
}

/// Relies on byteorder's `BigEndian::read_u16`, which reads the first two
/// bytes of a slice most significant first and panics on a shorter slice.
#[verifier::external_body]
fn read_be_u16(buf: &[u8], at: usize) -> (r: u16)
    requires
        at + 2 <= buf@.len(),
    ensures
        r as int == be16(buf@, at as int),
{
    BigEndian::read_u16(&buf[at..])
}

/// What `String::from_utf16` makes of a run of code units: the text, or
/// `None` where the units are not valid UTF-16.
pub uninterp spec fn utf16_text(units: Seq<u16>) -> Option<Seq<char>>;

/// Relies on `String::from_utf16`, which decodes the units or fails on
/// invalid UTF-16.
#[verifier::external_body]
fn decode_utf16(units: &[u16]) -> (r: Option<String>)
    ensures
        r is Some <==> utf16_text(units@) is Some,
        r matches Some(s) ==> utf16_text(units@) == Some(s@),
{
    String::from_utf16(units).ok()
}

/// The units of a field that starts at `pos`, up to a null unit or to the
/// last whole unit of the buffer, and where the next field starts.
pub open spec fn units_from(p: Seq<u8>, pos: int) -> (Seq<u16>, int)
    decreases p.len() - pos,
{
    if pos < 0 || pos + 2 > p.len() {
        (Seq::empty(), pos)
    } else if be16(p, pos) == NULL_UNIT {
        (Seq::empty(), pos + 2)
    } else {
        let (rest, next) = units_from(p, pos + 2);
        (seq![be16(p, pos) as u16] + rest, next)
    }
}

/// A text field at `pos`: its text and where the next field starts. A field
/// needs at least one unit, its terminator or its first character.
pub open spec fn text_field(p: Seq<u8>, pos: int) -> Result<(Seq<char>, int), DecodeError> {
    if pos + 2 > p.len() {
        Err(DecodeError::LengthMismatch)
    } else {
        let (units, next) = units_from(p, pos);
        match utf16_text(units) {
            Some(t) => Ok((t, next)),
            None => Err(DecodeError::EncodingError),
        }
    }
}

/// A numeric field at `pos`: its value and where the next field starts.
/// Digits and `+` are plain UTF-16 units, so a field that reads as a number
/// always decodes; one that does not is an encoding error where its units
/// do not decode, and a numeric error where they do.
pub open spec fn numeric_field(p: Seq<u8>, pos: int) -> Result<(usize, int), DecodeError> {
    if pos + 2 > p.len() {
        Err(DecodeError::LengthMismatch)
    } else {
        let (units, next) = units_from(p, pos);
        match decimal_value(units) {
            Some(v) => Ok((v, next)),
            None => if utf16_text(units) is None {
                Err(DecodeError::EncodingError)
            } else {
                Err(DecodeError::NumericParseError)
            },
        }
    }
}

/// The first error in the fixed part of a reply, if any.
pub open spec fn header_error(p: Seq<u8>) -> Option<DecodeError> {
    if p.len() == 0 || p[0] != KICK_IDENTIFIER {
        Some(DecodeError::InvalidIdentifier)
    } else if p.len() < HEADER_LEN || p.len() != HEADER_LEN + 2 * be16(p, 1) {
        Some(DecodeError::LengthMismatch)
    } else if p.len() < FIELDS_START || be16(p, 3) != SECTION_SIGN || be16(p, 5) != MARKER_ONE
        || be16(p, 7) != NULL_UNIT {
        Some(DecodeError::InvalidMarker)
    } else {
        None
    }
}

/// What a reply decodes to: the five fields in order, or the first error.
pub open spec fn decoded(p: Seq<u8>) -> Result<ServerInfo, DecodeError> {
    match header_error(p) {
        Some(e) => Err(e),
        None => match numeric_field(p, FIELDS_START as int) {
            Err(e) => Err(e),
            Ok((protocol_version, a)) => match text_field(p, a) {
                Err(e) => Err(e),
                Ok((server_version, b)) => match text_field(p, b) {
                    Err(e) => Err(e),
                    Ok((motd, c)) => match numeric_field(p, c) {
                        Err(e) => Err(e),
                        Ok((player_count, d)) => match numeric_field(p, d) {
                            Err(e) => Err(e),
                            Ok((max_players, _)) => Ok(
                                ServerInfo {
                                    protocol_version,
                                    server_version,
                                    motd,
                                    player_count,
                                    max_players,
                                },
                            ),
                        },
                    },
                },
            },
        },
    }
}

/// Reads the units of the field at `pos`.
fn read_units(p: &[u8], pos: usize) -> (r: (Vec<u16>, usize))
    requires
        pos + 2 <= p@.len(),
    ensures
        (r.0@, r.1 as int) == units_from(p@, pos as int),
{
    let mut units: Vec<u16> = Vec::new();
    let mut at: usize = pos;
    while p.len() - at >= 2
        invariant
            pos <= at <= p@.len(),
            units_from(p@, pos as int) == (units@ + units_from(p@, at as int).0, units_from(
                p@,
                at as int,
            ).1),
        decreases p@.len() - at,
    {
        let u = read_be_u16(p, at);
        if u == NULL_UNIT {
            assert(units@ + Seq::<u16>::empty() =~= units@);
            return (units, at + 2);
        }
        let ghost before = units@;
        units.push(u);
        proof {
            let rest = units_from(p@, at + 2);
            assert(units_from(p@, at as int) == (seq![u] + rest.0, rest.1));
            assert(before + (seq![u] + rest.0) =~= units@ + rest.0);
        }
        at = at + 2;
    }
    assert(units@ + Seq::<u16>::empty() =~= units@);
    (units, at)
}

/// Reads the text field at `pos`.
fn read_text_field(p: &[u8], pos: usize) -> (r: Result<(String, usize), DecodeError>)
    ensures
        r matches Ok((t, next)) ==> text_field(p@, pos as int) == Ok::<(Seq<char>, int), DecodeError>((t@, next as int)),
        r matches Err(e) ==> text_field(p@, pos as int) == Err::<(Seq<char>, int), DecodeError>(e),
{
    if pos > p.len() || p.len() - pos < 2 {
        return Err(DecodeError::LengthMismatch);
    }
    let (units, next) = read_units(p, pos);
    match decode_utf16(units.as_slice()) {
        Some(t) => Ok((t, next)),
        None => Err(DecodeError::EncodingError),
    }
}

/// Reads the numeric field at `pos`.
fn read_numeric_field(p: &[u8], pos: usize) -> (r: Result<(usize, usize), DecodeError>)
    ensures
        r matches Ok((v, next)) ==> numeric_field(p@, pos as int) == Ok::<(usize, int), DecodeError>((v, next as int)),
        r matches Err(e) ==> numeric_field(p@, pos as int) == Err::<(usize, int), DecodeError>(e),
{
    if pos > p.len() || p.len() - pos < 2 {
        return Err(DecodeError::LengthMismatch);
    }
    let (units, next) = read_units(p, pos);
    match parse_decimal(units.as_slice()) {
        Some(v) => Ok((v, next)),
        None => match decode_utf16(units.as_slice()) {
            Some(_) => Err(DecodeError::NumericParseError),
            None => Err(DecodeError::EncodingError),
        },
    }
}

/// Decodes a status reply: checks the identifier, the declared length and
/// the marker, then reads the five fields in order. The last field may end
/// with the buffer instead of a null unit.
pub fn parse_server_list_packet(packet: &[u8]) -> (r: Result<MinecraftServer, DecodeError>)
    ensures
        r matches Ok(s) ==> decoded(packet@) == Ok::<ServerInfo, DecodeError>(s@),
        r matches Err(e) ==> decoded(packet@) == Err::<ServerInfo, DecodeError>(e),
{
    if packet.len() == 0 || packet[0] != KICK_IDENTIFIER {
        return Err(DecodeError::InvalidIdentifier);
    }
    if packet.len() < HEADER_LEN {
        return Err(DecodeError::LengthMismatch);
    }
    let declared = read_be_u16(packet, 1) as usize;
    if packet.len() != HEADER_LEN + 2 * declared {
        return Err(DecodeError::LengthMismatch);
    }
    if packet.len() < FIELDS_START {
        return Err(DecodeError::InvalidMarker);
    }
    let section = read_be_u16(packet, 3);
    let one = read_be_u16(packet, 5);
    let null = read_be_u16(packet, 7);
    if section != SECTION_SIGN || one != MARKER_ONE || null != NULL_UNIT {
        return Err(DecodeError::InvalidMarker);
    }
    let (protocol_version, a) = match read_numeric_field(packet, FIELDS_START) {
        Ok(f) => f,
        Err(e) => return Err(e),
    };
    let (server_version, b) = match read_text_field(packet, a) {
        Ok(f) => f,
        Err(e) => return Err(e),
    };
    let (motd, c) = match read_text_field(packet, b) {
        Ok(f) => f,
        Err(e) => return Err(e),
    };
    let (player_count, d) = match read_numeric_field(packet, c) {
        Ok(f) => f,
        Err(e) => return Err(e),
    };
    let (max_players, _) = match read_numeric_field(packet, d) {
        Ok(f) => f,
        Err(e) => return Err(e),
    };
    Ok(MinecraftServer { protocol_version, server_version, motd, player_count, max_players })
}

} // verus!
