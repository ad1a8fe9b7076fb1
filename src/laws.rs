use crate::decimal::{
    all_digits, decimal_value, digits_value, is_digit, unsigned_digits, DIGIT_ZERO,
};
use crate::packet::{
    be16, decoded, header_error, numeric_field, text_field, units_from, utf16_text, DecodeError,
    ServerInfo, FIELDS_START, KICK_IDENTIFIER, MARKER_ONE, NULL_UNIT, SECTION_SIGN,
};
use vstd::prelude::*;

verus! {

/// Each unit as two bytes, most significant first.
pub open spec fn unit_bytes(units: Seq<u16>) -> Seq<u8> {
    Seq::new(
        2 * units.len(),
        |i: int|
            if i % 2 == 0 {
                (units[i / 2] / 256) as u8
            } else {
                (units[i / 2] % 256) as u8
            },
    )
}

pub open spec fn no_null(units: Seq<u16>) -> bool {
    forall|i: int| 0 <= i < units.len() ==> #[trigger] units[i] != NULL_UNIT
}

/// The text of a reply: the marker, then the five fields separated by null
/// units, the last one without a terminator.
pub open spec fn reply_units(
    protocol_version: Seq<u16>,
    server_version: Seq<u16>,
    motd: Seq<u16>,
    player_count: Seq<u16>,
    max_players: Seq<u16>,
) -> Seq<u16> {
    seq![SECTION_SIGN, MARKER_ONE, NULL_UNIT] + protocol_version + seq![NULL_UNIT] + server_version
        + seq![NULL_UNIT] + motd + seq![NULL_UNIT] + player_count + seq![NULL_UNIT] + max_players
}

/// A whole reply: the identifier, the unit count, and the text.
pub open spec fn reply_bytes(
    protocol_version: Seq<u16>,
    server_version: Seq<u16>,
    motd: Seq<u16>,
    player_count: Seq<u16>,
    max_players: Seq<u16>,
) -> Seq<u8> {
    let units = reply_units(protocol_version, server_version, motd, player_count, max_players);
    seq![KICK_IDENTIFIER, (units.len() / 256) as u8, (units.len() % 256) as u8] + unit_bytes(units)
}

/// The decimal digits of `n`, most significant first, without leading zeros.
pub open spec fn decimal_units(n: nat) -> Seq<u16>
    decreases n,
{
    if n < 10 {
        seq![(DIGIT_ZERO + n) as u16]
    } else {
        decimal_units(n / 10).push((DIGIT_ZERO + n % 10) as u16)
    }
}

/// A reply that carries the record, its numbers written in decimal and its
/// texts as the given UTF-16 units.
pub open spec fn reply_of(info: ServerInfo, server_version: Seq<u16>, motd: Seq<u16>) -> Seq<u8> {
    reply_bytes(
        decimal_units(info.protocol_version as nat),
        server_version,
        motd,
        decimal_units(info.player_count as nat),
        decimal_units(info.max_players as nat),
    )
}

/// The marker unit expected at position `k` of the text.
pub open spec fn marker_unit(k: int) -> u16 {
    if k == 0 {
        SECTION_SIGN
    } else if k == 1 {
        MARKER_ONE
    } else {
        NULL_UNIT
    }
}

/// The buffer with the unit `w` written at byte `at`.
pub open spec fn with_unit(p: Seq<u8>, at: int, w: u16) -> Seq<u8> {
    p.update(at, (w / 256) as u8).update(at + 1, (w % 256) as u8)
}

proof fn lemma_with_unit(p: Seq<u8>, at: int, w: u16)
    requires
        0 <= at,
        at + 2 <= p.len(),
    ensures
        be16(with_unit(p, at, w), at) == w,
        with_unit(p, at, w).len() == p.len(),
        forall|i: int| 0 <= i < p.len() && i != at && i != at + 1 ==> #[trigger] with_unit(p, at, w)[i] == p[i],
{
}

proof fn lemma_unit_bytes(p: Seq<u8>, base: int, units: Seq<u16>)
    requires
        0 <= base,
        p.len() == base + 2 * units.len(),
        p.subrange(base, p.len() as int) == unit_bytes(units),
    ensures
        forall|j: int| 0 <= j < units.len() ==> be16(p, base + 2 * j) == #[trigger] units[j],
{
    assert forall|j: int| 0 <= j < units.len() implies be16(p, base + 2 * j) == #[trigger] units[j] by {
        let b = unit_bytes(units);
        assert(p[base + 2 * j] == b[2 * j]);
        assert(p[base + 2 * j + 1] == b[2 * j + 1]);
        assert((2 * j) % 2 == 0 && (2 * j) / 2 == j);
        assert((2 * j + 1) % 2 == 1 && (2 * j + 1) / 2 == j);
    }
}

/// A field of `f` found at unit `k` of a text laid out from byte `base`
/// reads back as `f`, followed by the field after its terminator.
proof fn lemma_units_from_field(p: Seq<u8>, base: int, units: Seq<u16>, k: int, f: Seq<u16>)
    requires
        0 <= base,
        p.len() == base + 2 * units.len(),
        forall|j: int| 0 <= j < units.len() ==> be16(p, base + 2 * j) == #[trigger] units[j],
        0 <= k,
        k + f.len() <= units.len(),
        units.subrange(k, k + f.len()) == f,
        no_null(f),
        k + f.len() == units.len() || units[k + f.len()] == NULL_UNIT,
    ensures
        units_from(p, base + 2 * k) == (f, if k + f.len() == units.len() {
            p.len() as int
        } else {
            base + 2 * (k + f.len() + 1)
        }),
    decreases f.len(),
{
    if f.len() == 0 {
        if k < units.len() {
            assert(be16(p, base + 2 * k) == units[k]);
        }
        assert(units_from(p, base + 2 * k).0 =~= f);
    } else {
        let rest = f.drop_first();
        assert(units[k] == f[0]);
        assert(f[0] != NULL_UNIT);
        assert(be16(p, base + 2 * k) == units[k]);
        assert(units.subrange(k + 1, k + 1 + rest.len()) =~= rest);
        assert(no_null(rest)) by {
            assert forall|i: int| 0 <= i < rest.len() implies #[trigger] rest[i] != NULL_UNIT by {
                assert(rest[i] == f[i + 1]);
            }
        }
        lemma_units_from_field(p, base, units, k + 1, rest);
        assert(base + 2 * (k + 1) == base + 2 * k + 2);
        assert(seq![f[0]] + rest =~= f);
    }
}

/// The header of a reply built by `reply_bytes` passes every check.
proof fn lemma_reply_header(
    protocol_version: Seq<u16>,
    server_version: Seq<u16>,
    motd: Seq<u16>,
    player_count: Seq<u16>,
    max_players: Seq<u16>,
)
    requires
        reply_units(protocol_version, server_version, motd, player_count, max_players).len()
            <= u16::MAX,
    ensures
        ({
            let units = reply_units(protocol_version, server_version, motd, player_count, max_players);
            let p = reply_bytes(protocol_version, server_version, motd, player_count, max_players);
            &&& header_error(p) is None
            &&& p.len() == 3 + 2 * units.len()
            &&& forall|j: int| 0 <= j < units.len() ==> be16(p, 3 + 2 * j) == #[trigger] units[j]
        }),
{
    let units = reply_units(protocol_version, server_version, motd, player_count, max_players);
    let p = reply_bytes(protocol_version, server_version, motd, player_count, max_players);
    assert(p.subrange(3, p.len() as int) =~= unit_bytes(units));
    lemma_unit_bytes(p, 3, units);
    assert(be16(p, 1) == units.len());
    assert(units[0] == SECTION_SIGN);
    assert(units[1] == MARKER_ONE);
    assert(units[2] == NULL_UNIT);
    assert(be16(p, 3) == units[0]);
    assert(be16(p, 5) == units[1]);
    assert(be16(p, 7) == units[2]);
}

/// Every well-formed reply decodes to exactly the fields it carries: the
/// numbers as the values of their digits, the texts as what their units
/// decode to. The last field needs no terminator.
pub proof fn lemma_valid_reply_decodes(
    protocol_version: Seq<u16>,
    server_version: Seq<u16>,
    motd: Seq<u16>,
    player_count: Seq<u16>,
    max_players: Seq<u16>,
)
    requires
        no_null(protocol_version),
        no_null(server_version),
        no_null(motd),
        no_null(player_count),
        no_null(max_players),
        reply_units(protocol_version, server_version, motd, player_count, max_players).len()
            <= u16::MAX,
        decimal_value(protocol_version) is Some,
        utf16_text(server_version) is Some,
        utf16_text(motd) is Some,
        decimal_value(player_count) is Some,
        decimal_value(max_players) is Some,
    ensures
        decoded(reply_bytes(protocol_version, server_version, motd, player_count, max_players))
            == Ok::<ServerInfo, DecodeError>(
            ServerInfo {
                protocol_version: decimal_value(protocol_version)->Some_0,
                server_version: utf16_text(server_version)->Some_0,
                motd: utf16_text(motd)->Some_0,
                player_count: decimal_value(player_count)->Some_0,
                max_players: decimal_value(max_players)->Some_0,
            },
        ),
{
    let units = reply_units(protocol_version, server_version, motd, player_count, max_players);
    let p = reply_bytes(protocol_version, server_version, motd, player_count, max_players);
    lemma_reply_header(protocol_version, server_version, motd, player_count, max_players);
    assert(max_players.len() > 0);
    let k1: int = 3;
    let k2: int = k1 + protocol_version.len() + 1;
    let k3: int = k2 + server_version.len() + 1;
    let k4: int = k3 + motd.len() + 1;
    let k5: int = k4 + player_count.len() + 1;
    assert(units.len() == k5 + max_players.len());
    assert(units.subrange(k1, k1 + protocol_version.len()) =~= protocol_version);
    assert(units.subrange(k2, k2 + server_version.len()) =~= server_version);
    assert(units.subrange(k3, k3 + motd.len()) =~= motd);
    assert(units.subrange(k4, k4 + player_count.len()) =~= player_count);
    assert(units.subrange(k5, k5 + max_players.len()) =~= max_players);
    assert(units[k2 - 1] == NULL_UNIT);
    assert(units[k3 - 1] == NULL_UNIT);
    assert(units[k4 - 1] == NULL_UNIT);
    assert(units[k5 - 1] == NULL_UNIT);
    lemma_units_from_field(p, 3, units, k1, protocol_version);
    lemma_units_from_field(p, 3, units, k2, server_version);
    lemma_units_from_field(p, 3, units, k3, motd);
    lemma_units_from_field(p, 3, units, k4, player_count);
    lemma_units_from_field(p, 3, units, k5, max_players);
    assert(numeric_field(p, FIELDS_START as int) == Ok::<(usize, int), DecodeError>(
        (decimal_value(protocol_version)->Some_0, 3 + 2 * k2),
    ));
    assert(text_field(p, 3 + 2 * k2) == Ok::<(Seq<char>, int), DecodeError>(
        (utf16_text(server_version)->Some_0, 3 + 2 * k3),
    ));
    assert(text_field(p, 3 + 2 * k3) == Ok::<(Seq<char>, int), DecodeError>(
        (utf16_text(motd)->Some_0, 3 + 2 * k4),
    ));
    assert(numeric_field(p, 3 + 2 * k4) == Ok::<(usize, int), DecodeError>(
        (decimal_value(player_count)->Some_0, 3 + 2 * k5),
    ));
    assert(numeric_field(p, 3 + 2 * k5) == Ok::<(usize, int), DecodeError>(
        (decimal_value(max_players)->Some_0, p.len() as int),
    ));
}

/// The decimal digits of a number read back as that number.
pub proof fn lemma_decimal_units(n: nat)
    ensures
        decimal_units(n).len() > 0,
        all_digits(decimal_units(n)),
        no_null(decimal_units(n)),
        n <= usize::MAX ==> decimal_value(decimal_units(n)) == Some(n as usize),
        digits_value(decimal_units(n)) == n,
    decreases n,
{
    let s = decimal_units(n);
    if n < 10 {
        assert(s.drop_last() =~= Seq::<u16>::empty());
        assert(digits_value(s) == digits_value(s.drop_last()) * 10 + n);
    } else {
        let t = decimal_units(n / 10);
        lemma_decimal_units(n / 10);
        assert(s.drop_last() =~= t);
        assert(s.last() == DIGIT_ZERO + n % 10);
        assert(digits_value(s) == digits_value(t) * 10 + n % 10);
        assert((n / 10) * 10 + n % 10 == n) by (nonlinear_arith);
        assert forall|i: int| 0 <= i < s.len() implies #[trigger] is_digit(s[i]) by {
            if i < t.len() {
                assert(is_digit(t[i]));
            }
        }
    }
    assert(no_null(s)) by {
        assert forall|i: int| 0 <= i < s.len() implies #[trigger] s[i] != NULL_UNIT by {
            assert(is_digit(s[i]));
        }
    }
    assert(is_digit(s[0]));
    assert(unsigned_digits(s) == s);
}

/// Writing a record in the reply format and decoding it gives the record
/// back, for any UTF-16 units of its two texts that hold no null unit.
pub proof fn lemma_round_trip(info: ServerInfo, server_version: Seq<u16>, motd: Seq<u16>)
    requires
        utf16_text(server_version) == Some(info.server_version),
        utf16_text(motd) == Some(info.motd),
        no_null(server_version),
        no_null(motd),
        reply_units(
            decimal_units(info.protocol_version as nat),
            server_version,
            motd,
            decimal_units(info.player_count as nat),
            decimal_units(info.max_players as nat),
        ).len() <= u16::MAX,
    ensures
        decoded(reply_of(info, server_version, motd)) == Ok::<ServerInfo, DecodeError>(info),
{
    lemma_decimal_units(info.protocol_version as nat);
    lemma_decimal_units(info.player_count as nat);
    lemma_decimal_units(info.max_players as nat);
    lemma_valid_reply_decodes(
        decimal_units(info.protocol_version as nat),
        server_version,
        motd,
        decimal_units(info.player_count as nat),
        decimal_units(info.max_players as nat),
    );
}

/// A buffer whose first byte is not the kick identifier is refused as such,
/// whatever follows.
pub proof fn lemma_bad_identifier(p: Seq<u8>, b: u8)
    requires
        p.len() > 0,
        b != KICK_IDENTIFIER,
    ensures
        decoded(p.update(0, b)) == Err::<ServerInfo, DecodeError>(DecodeError::InvalidIdentifier),
{
}

/// A declared length that disagrees with the buffer is refused as a length
/// mismatch, whatever follows.
pub proof fn lemma_bad_length(p: Seq<u8>, declared: u16)
    requires
        p.len() >= 3,
        p[0] == KICK_IDENTIFIER,
        p.len() != 3 + 2 * declared,
    ensures
        decoded(with_unit(p, 1, declared)) == Err::<ServerInfo, DecodeError>(
            DecodeError::LengthMismatch,
        ),
{
    lemma_with_unit(p, 1, declared);
}

/// In a buffer with the right identifier and length, changing any of the
/// three marker units is refused as an invalid marker, whatever follows.
pub proof fn lemma_bad_marker(p: Seq<u8>, k: int, w: u16)
    requires
        p.len() >= FIELDS_START,
        p[0] == KICK_IDENTIFIER,
        p.len() == 3 + 2 * be16(p, 1),
        0 <= k < 3,
        w != marker_unit(k),
    ensures
        decoded(with_unit(p, 3 + 2 * k, w)) == Err::<ServerInfo, DecodeError>(
            DecodeError::InvalidMarker,
        ),
{
    lemma_with_unit(p, 3 + 2 * k, w);
    let q = with_unit(p, 3 + 2 * k, w);
    assert(q[0] == p[0]);
    assert(q[1] == p[1]);
    assert(q[2] == p[2]);
}

} // verus!
