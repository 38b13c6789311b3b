use detguest::wire::regionipc::{
    decode_reply, decode_request, encode_reply, encode_request, Reply, Request, MAX_NAME_LEN,
    REGIONIPC_MAX_DATAGRAM, REG_OFF_FLAGS, REG_OFF_LEN, REG_OFF_NAME, REG_OFF_NAME_ID,
    REG_OFF_NAME_LEN, STATUS_NOT_PINNED, STATUS_OK, UNREG_LEN, REPLY_LEN,
};
use detguest::wire::{DecodeError, EncodeError};

fn round_trip_request(req: Request<'_>) {
    let mut buf = [0u8; REGIONIPC_MAX_DATAGRAM];
    let n = encode_request(&req, &mut buf).unwrap();
    assert!(n <= REGIONIPC_MAX_DATAGRAM);
    assert_eq!(decode_request(&buf[..n]).unwrap(), req);
}

#[test]
fn register_round_trips_min_and_max_names() {
    round_trip_request(Request::Register {
        flags: 0x3,
        layout_version: 1,
        name_id: 7,
        gva: 0x7f00_dead_b000,
        len: 229_376,
        name: b"w",
    });
    let name = [b'n'; MAX_NAME_LEN];
    round_trip_request(Request::Register {
        flags: 0,
        layout_version: 9,
        name_id: u32::MAX,
        gva: u64::MAX,
        len: 1,
        name: &name,
    });
}

#[test]
fn unregister_and_reply_round_trip() {
    round_trip_request(Request::Unregister { region_id: 63 });
    let reply = Reply { status: STATUS_OK, region_id: 3, name_id: 5, manifest_generation: 12 };
    let mut buf = [0u8; REGIONIPC_MAX_DATAGRAM];
    let n = encode_reply(&reply, &mut buf).unwrap();
    assert_eq!(n, REPLY_LEN);
    assert_eq!(decode_reply(&buf[..n]).unwrap(), reply);
}

#[test]
fn max_register_fits_documented_cap() {
    let name = [b'n'; MAX_NAME_LEN];
    let mut buf = [0u8; REGIONIPC_MAX_DATAGRAM];
    let n = encode_request(
        &Request::Register { flags: 0, layout_version: 1, name_id: 1, gva: 0, len: 1, name: &name },
        &mut buf,
    )
    .unwrap();
    assert_eq!(n, 94);
}

fn encoded_register() -> ([u8; REGIONIPC_MAX_DATAGRAM], usize) {
    let mut buf = [0u8; REGIONIPC_MAX_DATAGRAM];
    let n = encode_request(
        &Request::Register {
            flags: 1,
            layout_version: 1,
            name_id: 2,
            gva: 0x1000,
            len: 4096,
            name: b"wram",
        },
        &mut buf,
    )
    .unwrap();
    (buf, n)
}

#[test]
fn malformed_datagrams_are_typed_errors() {
    let (buf, n) = encoded_register();
    assert_eq!(decode_request(&buf[..4]), Err(DecodeError::Truncated));
    assert_eq!(decode_request(&buf[..20]), Err(DecodeError::Truncated));
    assert_eq!(decode_request(&buf[..n - 1]), Err(DecodeError::Truncated));
    assert_eq!(decode_request(&buf[..n + 1]), Err(DecodeError::BadLen));
    let mut bad = buf;
    bad[0] ^= 1;
    assert_eq!(decode_request(&bad[..n]), Err(DecodeError::BadMagic));
    let mut bad = buf;
    bad[4] = 0xFF;
    assert_eq!(decode_request(&bad[..n]), Err(DecodeError::BadVersion));
    let mut bad = buf;
    bad[6] = 0x77;
    bad[7] = 0x77;
    assert_eq!(decode_request(&bad[..n]), Err(DecodeError::BadField));
    let mut reply_buf = [0u8; REGIONIPC_MAX_DATAGRAM];
    let rn = encode_reply(
        &Reply { status: STATUS_OK, region_id: 0, name_id: 1, manifest_generation: 2 },
        &mut reply_buf,
    )
    .unwrap();
    assert_eq!(decode_request(&reply_buf[..rn]), Err(DecodeError::BadField));
}

#[test]
fn bad_fields_are_rejected() {
    let (mut buf, n) = encoded_register();
    buf[REG_OFF_NAME_LEN] = 0;
    buf[REG_OFF_NAME_LEN + 1] = 0;
    assert_eq!(decode_request(&buf[..n]), Err(DecodeError::BadField));
    let (mut buf, n) = encoded_register();
    buf[REG_OFF_NAME_LEN] = 57;
    assert_eq!(decode_request(&buf[..n]), Err(DecodeError::BadField));
    let (mut buf, n) = encoded_register();
    buf[REG_OFF_NAME_LEN] = 56;
    assert_eq!(decode_request(&buf[..n]), Err(DecodeError::Truncated));
    let (mut buf, n) = encoded_register();
    buf[REG_OFF_FLAGS + 3] |= 0x80;
    assert_eq!(decode_request(&buf[..n]), Err(DecodeError::BadField));
    let (mut buf, n) = encoded_register();
    buf[REG_OFF_NAME_ID..REG_OFF_NAME_ID + 4].copy_from_slice(&0u32.to_le_bytes());
    assert_eq!(decode_request(&buf[..n]), Err(DecodeError::BadField));
    let (mut buf, n) = encoded_register();
    buf[REG_OFF_LEN..REG_OFF_LEN + 8].copy_from_slice(&0u64.to_le_bytes());
    assert_eq!(decode_request(&buf[..n]), Err(DecodeError::BadField));
    let (mut buf, n) = encoded_register();
    buf[REG_OFF_NAME] = 0xFF;
    assert!(decode_request(&buf[..n]).is_ok());
}

#[test]
fn unregister_length_is_exact() {
    let mut buf = [0u8; REGIONIPC_MAX_DATAGRAM];
    let n = encode_request(&Request::Unregister { region_id: 1 }, &mut buf).unwrap();
    assert_eq!(n, UNREG_LEN);
    assert_eq!(decode_request(&buf[..n - 1]), Err(DecodeError::Truncated));
    assert_eq!(decode_request(&buf[..n + 1]), Err(DecodeError::BadLen));
}

#[test]
fn reply_length_is_exact() {
    let mut buf = [0u8; REGIONIPC_MAX_DATAGRAM];
    let n = encode_reply(
        &Reply { status: STATUS_NOT_PINNED, region_id: 0, name_id: 0, manifest_generation: 0 },
        &mut buf,
    )
    .unwrap();
    assert_eq!(decode_reply(&buf[..n - 1]), Err(DecodeError::Truncated));
    assert_eq!(decode_reply(&buf[..n + 1]), Err(DecodeError::BadLen));
    assert_eq!(decode_reply(&buf[..n]).unwrap().status, STATUS_NOT_PINNED);
}

#[test]
fn oversized_name_rejected_at_encode() {
    let name = [b'n'; MAX_NAME_LEN + 1];
    let mut buf = [0u8; REGIONIPC_MAX_DATAGRAM];
    assert_eq!(
        encode_request(
            &Request::Register { flags: 0, layout_version: 1, name_id: 1, gva: 0, len: 1, name: &name },
            &mut buf,
        ),
        Err(EncodeError::FieldTooLong)
    );
    assert_eq!(
        encode_request(
            &Request::Register { flags: 0, layout_version: 1, name_id: 1, gva: 0, len: 1, name: b"" },
            &mut buf,
        ),
        Err(EncodeError::FieldTooLong)
    );
}

#[test]
fn short_output_buffers_are_refused() {
    let mut small = [0u8; 11];
    assert_eq!(
        encode_request(&Request::Unregister { region_id: 1 }, &mut small),
        Err(EncodeError::BufferTooSmall)
    );
    assert_eq!(
        encode_reply(&Reply { status: 0, region_id: 0, name_id: 0, manifest_generation: 0 }, &mut small),
        Err(EncodeError::BufferTooSmall)
    );
    assert_eq!(small, [0u8; 11]);
}
