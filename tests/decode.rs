use minecraft_server::decimal::parse_decimal;
use minecraft_server::packet::{parse_server_list_packet, DecodeError, MinecraftServer};

/// Appends each text as UTF-16BE units, a null unit between fields, behind
/// the identifier, the unit count and the marker.
fn reply(fields: &[&str]) -> Vec<u8> {
    let mut units: Vec<u16> = vec![0x00A7, 0x0031, 0x0000];
    for (i, f) in fields.iter().enumerate() {
        if i > 0 {
            units.push(0);
        }
        units.extend(f.encode_utf16());
    }
    let mut bytes = vec![0xFF, (units.len() >> 8) as u8, units.len() as u8];
    for u in units {
        bytes.push((u >> 8) as u8);
        bytes.push(u as u8);
    }
    bytes
}

fn default_server() -> Vec<u8> {
    vec![0xff, 0, 0x25, 0, 0xa7, 0, 0x31, 0, 0, 0, 49, 0, 50, 0, 55, 0, 0, 0, 49, 0, 46, 0, 49, 0, 57, 0, 46, 0, 51, 0, 0, 0, 65, 0, 32, 0, 77, 0, 105, 0, 110, 0, 101, 0, 99, 0, 114, 0, 97, 0, 102, 0, 116, 0, 32, 0, 83, 0, 101, 0, 114, 0, 118, 0, 101, 0, 114, 0, 0, 0, 48, 0, 0, 0, 50, 0, 48]
}

#[test]
fn valid_server_packet() {
    // Data from a 1.19.3 Server with no changes to default settings.
    {
        let packet = vec![0xff, 0, 0x25, 0, 0xa7, 0, 0x31, 0, 0, 0, 49, 0, 50, 0, 55, 0, 0, 0, 49, 0, 46, 0, 49, 0, 57, 0, 46, 0, 51, 0, 0, 0, 65, 0, 32, 0, 77, 0, 105, 0, 110, 0, 101, 0, 99, 0, 114, 0, 97, 0, 102, 0, 116, 0, 32, 0, 83, 0, 101, 0, 114, 0, 118, 0, 101, 0, 114, 0, 0, 0, 48, 0, 0, 0, 50, 0, 48];
        let result = parse_server_list_packet(&packet);

        let expected = MinecraftServer {
            protocol_version: 127,
            server_version: "1.19.3".to_string(),
            motd: "A Minecraft Server".to_string(),
            player_count: 0,
            max_players: 20,
        };
        assert!(!result.is_err(), "This is a valid packet, it should not have errored");
        assert!(expected == result.expect("Should be valid"), "Default server should equal test server");
    }
}

#[test]
fn invalid_packet_identifiers() {
    // Test changing 0xff kick id indicator
    {
        let packet = vec![0xf0, 0, 0x25, 0, 0xa7, 0, 0x31, 0, 0, 0, 49, 0, 50, 0, 55, 0, 0, 0, 49, 0, 46, 0, 49, 0, 57, 0, 46, 0, 51, 0, 0, 0, 65, 0, 32, 0, 77, 0, 105, 0, 110, 0, 101, 0, 99, 0, 114, 0, 97, 0, 102, 0, 116, 0, 32, 0, 83, 0, 101, 0, 114, 0, 118, 0, 101, 0, 114, 0, 0, 0, 48, 0, 0, 0, 50, 0, 48];
        let result = parse_server_list_packet(&packet);
        assert!(result.is_err(), "This packet ID is invalid");
    }
    // Test changing packet length
    {
        let packet = vec![0xff, 0, 0x15, 0, 0xa7, 0, 0x31, 0, 0, 0, 49, 0, 50, 0, 55, 0, 0, 0, 49, 0, 46, 0, 49, 0, 57, 0, 46, 0, 51, 0, 0, 0, 65, 0, 32, 0, 77, 0, 105, 0, 110, 0, 101, 0, 99, 0, 114, 0, 97, 0, 102, 0, 116, 0, 32, 0, 83, 0, 101, 0, 114, 0, 118, 0, 101, 0, 114, 0, 0, 0, 48, 0, 0, 0, 50, 0, 48];
        let result = parse_server_list_packet(&packet);
        assert!(result.is_err(), "This packet ID is invalid");
    }
    // Test changing §1\u{0}
    {
        // Changing §
        {
            let packet = vec![0xff, 0, 0x25, 0, 0xa0, 0, 0x31, 0, 0, 0, 49, 0, 50, 0, 55, 0, 0, 0, 49, 0, 46, 0, 49, 0, 57, 0, 46, 0, 51, 0, 0, 0, 65, 0, 32, 0, 77, 0, 105, 0, 110, 0, 101, 0, 99, 0, 114, 0, 97, 0, 102, 0, 116, 0, 32, 0, 83, 0, 101, 0, 114, 0, 118, 0, 101, 0, 114, 0, 0, 0, 48, 0, 0, 0, 50, 0, 48];
            let result = parse_server_list_packet(&packet);
            assert!(result.is_err(), "This packet ID is invalid");
        }
        // Changing 1
        {
            let packet = vec![0xff, 0, 0x25, 0, 0xa7, 0, 0x21, 0, 0, 0, 49, 0, 50, 0, 55, 0, 0, 0, 49, 0, 46, 0, 49, 0, 57, 0, 46, 0, 51, 0, 0, 0, 65, 0, 32, 0, 77, 0, 105, 0, 110, 0, 101, 0, 99, 0, 114, 0, 97, 0, 102, 0, 116, 0, 32, 0, 83, 0, 101, 0, 114, 0, 118, 0, 101, 0, 114, 0, 0, 0, 48, 0, 0, 0, 50, 0, 48];
            let result = parse_server_list_packet(&packet);
            assert!(result.is_err(), "This packet ID is invalid");
        }
        // Changing \u{0}
        {
            let packet = vec![0xff, 0, 0x25, 0, 0xa0, 0, 0x31, 0x01, 0x00, 0, 49, 0, 50, 0, 55, 0, 0, 0, 49, 0, 46, 0, 49, 0, 57, 0, 46, 0, 51, 0, 0, 0, 65, 0, 32, 0, 77, 0, 105, 0, 110, 0, 101, 0, 99, 0, 114, 0, 97, 0, 102, 0, 116, 0, 32, 0, 83, 0, 101, 0, 114, 0, 118, 0, 101, 0, 114, 0, 0, 0, 48, 0, 0, 0, 50, 0, 48];
            let result = parse_server_list_packet(&packet);
            assert!(result.is_err(), "This packet ID is invalid");
        }
    }
}

#[test]
fn every_other_first_byte_is_an_invalid_identifier() {
    for b in 0..=0xFEu8 {
        let mut packet = default_server();
        packet[0] = b;
        assert_eq!(parse_server_list_packet(&packet), Err(DecodeError::InvalidIdentifier));
    }
}

#[test]
fn empty_buffer_is_an_invalid_identifier() {
    assert_eq!(parse_server_list_packet(&[]), Err(DecodeError::InvalidIdentifier));
}

#[test]
fn every_wrong_declared_length_is_a_mismatch() {
    for declared in [0u16, 1, 0x15, 0x24, 0x26, 0x100, 0x2500, 0xFFFF] {
        let mut packet = default_server();
        packet[1] = (declared >> 8) as u8;
        packet[2] = declared as u8;
        assert_eq!(parse_server_list_packet(&packet), Err(DecodeError::LengthMismatch));
    }
}

#[test]
fn buffer_shorter_than_header_is_a_mismatch() {
    assert_eq!(parse_server_list_packet(&[0xFF]), Err(DecodeError::LengthMismatch));
    assert_eq!(parse_server_list_packet(&[0xFF, 0]), Err(DecodeError::LengthMismatch));
}

#[test]
fn each_changed_marker_unit_is_an_invalid_marker() {
    for at in [3usize, 5, 7] {
        for w in [0x0000u16, 0x0001, 0x00A0, 0x0021, 0x0031, 0x00A7, 0x0100, 0xFFFF] {
            let mut packet = default_server();
            let expected = u16::from_be_bytes([packet[at], packet[at + 1]]);
            if w == expected {
                continue;
            }
            packet[at] = (w >> 8) as u8;
            packet[at + 1] = w as u8;
            assert_eq!(parse_server_list_packet(&packet), Err(DecodeError::InvalidMarker));
        }
    }
}

#[test]
fn text_too_short_for_the_marker_is_an_invalid_marker() {
    assert_eq!(parse_server_list_packet(&[0xFF, 0, 0]), Err(DecodeError::InvalidMarker));
    assert_eq!(parse_server_list_packet(&[0xFF, 0, 2, 0, 0xA7, 0, 0x31]), Err(DecodeError::InvalidMarker));
}

#[test]
fn built_reply_decodes_to_its_fields() {
    let packet = reply(&["127", "1.19.3", "A Minecraft Server", "0", "20"]);
    assert_eq!(packet, default_server());
    let packet = reply(&["47", "1.8.9", "§aHello, wörld ✓", "+7", "18446744"]);
    let server = parse_server_list_packet(&packet).unwrap();
    assert_eq!(server.protocol_version, 47);
    assert_eq!(server.server_version, "1.8.9");
    assert_eq!(server.motd, "§aHello, wörld ✓");
    assert_eq!(server.player_count, 7);
    assert_eq!(server.max_players, 18446744);
}

#[test]
fn round_trip_of_a_record() {
    let info = MinecraftServer {
        protocol_version: 5,
        server_version: "b1.7 \u{1F600}".to_string(),
        motd: String::new(),
        player_count: 1234,
        max_players: 100000,
    };
    let pv = info.protocol_version.to_string();
    let pc = info.player_count.to_string();
    let mp = info.max_players.to_string();
    let packet = reply(&[&pv, &info.server_version, &info.motd, &pc, &mp]);
    assert_eq!(parse_server_list_packet(&packet), Ok(info));
}

#[test]
fn truncated_last_field_keeps_the_units_present() {
    // The last unit of max_players is cut off and the declared length follows.
    let mut packet = default_server();
    packet.truncate(packet.len() - 2);
    packet[2] = 0x24;
    let server = parse_server_list_packet(&packet).unwrap();
    assert_eq!(server.max_players, 2);
    assert_eq!(server.player_count, 0);
}

#[test]
fn missing_last_field_is_an_error() {
    // Ends right after player_count, with no terminator.
    let packet = reply(&["127", "1.19.3", "A Minecraft Server", "0"]);
    assert_eq!(parse_server_list_packet(&packet), Err(DecodeError::LengthMismatch));
    // Ends with the terminator of player_count and nothing after it.
    let mut packet = reply(&["127", "1.19.3", "A Minecraft Server", "0"]);
    packet.extend([0, 0]);
    packet[2] += 1;
    assert_eq!(parse_server_list_packet(&packet), Err(DecodeError::LengthMismatch));
    // Only the protocol version.
    let packet = reply(&["127"]);
    assert_eq!(parse_server_list_packet(&packet), Err(DecodeError::LengthMismatch));
}

#[test]
fn non_numeric_fields_are_parse_errors() {
    for fields in [
        ["x127", "1.19.3", "motd", "0", "20"],
        ["127", "1.19.3", "motd", "", "20"],
        ["127", "1.19.3", "motd", "0", "2 0"],
        ["127", "1.19.3", "motd", "-1", "20"],
        ["127", "1.19.3", "motd", "0", "+"],
        ["127", "1.19.3", "motd", "0", "99999999999999999999999"],
        ["１２", "1.19.3", "motd", "0", "20"],
    ] {
        let packet = reply(&fields);
        assert_eq!(parse_server_list_packet(&packet), Err(DecodeError::NumericParseError));
    }
}

#[test]
fn unpaired_surrogates_are_encoding_errors() {
    let mut packet = reply(&["127", "1.19.3", "ab", "0", "20"]);
    // "a" of the motd becomes a lone high surrogate.
    let at = packet.windows(2).position(|w| w == [0, b'a']).unwrap();
    packet[at] = 0xD8;
    packet[at + 1] = 0x00;
    assert_eq!(parse_server_list_packet(&packet), Err(DecodeError::EncodingError));

    let mut packet = reply(&["127", "1.19.3", "ab", "0", "20"]);
    // The first digit of max_players becomes a lone low surrogate.
    let n = packet.len();
    packet[n - 4] = 0xDC;
    packet[n - 3] = 0x00;
    assert_eq!(parse_server_list_packet(&packet), Err(DecodeError::EncodingError));
}

#[test]
fn first_error_wins() {
    // A bad protocol version is reported before a bad encoding later on.
    let mut packet = reply(&["abc", "1.19.3", "ab", "0", "20"]);
    let n = packet.len();
    packet[n - 4] = 0xDC;
    packet[n - 3] = 0x00;
    assert_eq!(parse_server_list_packet(&packet), Err(DecodeError::NumericParseError));
}

#[test]
fn decimal_values() {
    let units = |s: &str| s.encode_utf16().collect::<Vec<u16>>();
    assert_eq!(parse_decimal(&units("0")), Some(0));
    assert_eq!(parse_decimal(&units("007")), Some(7));
    assert_eq!(parse_decimal(&units("+42")), Some(42));
    assert_eq!(parse_decimal(&units(&usize::MAX.to_string())), Some(usize::MAX));
    assert_eq!(parse_decimal(&units("18446744073709551616")), None);
    assert_eq!(parse_decimal(&units("")), None);
    assert_eq!(parse_decimal(&units("+")), None);
    assert_eq!(parse_decimal(&units("++1")), None);
    assert_eq!(parse_decimal(&units("1a")), None);
    assert_eq!(parse_decimal(&units(" 1")), None);
}
