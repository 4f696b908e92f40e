use game_server::packet::game_data_code::{GM_DATA_ATK, GM_DATA_MOV, GM_DATA_SKIP};
use game_server::packet::request_codes::{
    CHAR_CHOOSING, GM_CREAT, GM_DATA, GM_JOIN, GM_START, PL_CREAT, TERM_CON,
};
use game_server::packet::status_codes::{
    ERR_GM_AL_START, ERR_GM_FULL, ERR_GM_NOT_FULL, ERR_GM_NOT_JOIN, ERR_GM_NOT_START,
    ERR_INTERNAL_SERV, ERR_INV_GM_TOK, ERR_INV_PL_TOK, ERR_INV_PSEUD, ERR_MAL_REQ,
    OK_CHAR_CHOOSING, OK_GM_CREAT, OK_GM_DATA, OK_GM_JOIN, OK_GM_START, OK_PL_CREAT, OK_TERM_CON,
};
use game_server::packet::{decode, encode, encode_text, packet_size, FramingError, MAX_BODY};
use game_server::response::packet_sizes::{DEF, GM_CREAT_SIZE, MAL_REQ_SIZE, PL_CREAT_SIZE, TERM_CON_SIZE};

#[test]
fn codes_are_the_protocol_s() {
    assert_eq!(
        [TERM_CON, PL_CREAT, GM_CREAT, GM_JOIN, CHAR_CHOOSING, GM_START, GM_DATA],
        [10, 11, 12, 13, 14, 15, 16]
    );
    assert_eq!(
        [OK_TERM_CON, OK_PL_CREAT, OK_GM_CREAT, OK_GM_JOIN, OK_CHAR_CHOOSING, OK_GM_START, OK_GM_DATA],
        [20, 21, 22, 23, 24, 25, 26]
    );
    assert_eq!(
        [
            ERR_INTERNAL_SERV,
            ERR_MAL_REQ,
            ERR_INV_PSEUD,
            ERR_INV_PL_TOK,
            ERR_INV_GM_TOK,
            ERR_GM_AL_START,
            ERR_GM_FULL,
            ERR_GM_NOT_JOIN,
            ERR_GM_NOT_FULL,
            ERR_GM_NOT_START
        ],
        [30, 31, 32, 33, 34, 35, 36, 37, 38, 39]
    );
    assert_eq!([GM_DATA_MOV, GM_DATA_ATK, GM_DATA_SKIP], [50, 51, 52]);
}

#[test]
fn fixed_sizes_are_the_lengths_of_the_bodies() {
    assert_eq!(DEF as usize, "{\"status\":31}".len());
    assert_eq!(TERM_CON_SIZE, 13);
    assert_eq!(MAL_REQ_SIZE, 13);
    assert_eq!(
        PL_CREAT_SIZE as usize,
        "{\"status\":21,\"player_token\":\"123e4567-e89b-42d3-a456-426614174000\"}".len()
    );
    assert_eq!(
        GM_CREAT_SIZE as usize,
        "{\"status\":22,\"game_token\":\"123e4567-e89b-42d3-a456-426614174000\"}".len()
    );
}

#[test]
fn frame_is_length_then_body() {
    assert_eq!(encode(b"{}"), Ok(vec![0, 2, b'{', b'}']));
    assert_eq!(encode(b""), Ok(vec![0, 0]));
    let body = vec![7u8; 300];
    let frame = encode(&body).unwrap();
    assert_eq!(frame.len(), 302);
    assert_eq!(&frame[..2], &[1, 44]);
    assert_eq!(&frame[2..], &body[..]);
    assert_eq!(encode_text("{\"status\":31}").unwrap()[..2], [0, 13]);
    assert_eq!(encode_text("é"), Ok(vec![0, 2, 0xc3, 0xa9]));
}

#[test]
fn longest_body_fits_and_one_byte_more_does_not() {
    let body = vec![1u8; MAX_BODY];
    let frame = encode(&body).unwrap();
    assert_eq!(&frame[..2], &[255, 255]);
    assert_eq!(frame.len(), MAX_BODY + 2);
    let too_long = vec![1u8; MAX_BODY + 1];
    assert_eq!(encode(&too_long), Err(FramingError::BodyTooLong));
    let text = "a".repeat(MAX_BODY + 1);
    assert_eq!(encode_text(&text), Err(FramingError::BodyTooLong));
}

#[test]
fn prefix_is_big_endian() {
    assert_eq!(packet_size(0, 13), 13);
    assert_eq!(packet_size(1, 0), 256);
    assert_eq!(packet_size(0x12, 0x34), 0x1234);
    assert_eq!(packet_size(255, 255), 65535);
    assert_eq!(packet_size(1, 44), u16::from_be_bytes([1, 44]));
}

#[test]
fn decode_reads_exactly_the_advertised_length() {
    assert_eq!(decode(&[0, 2, b'{', b'}']), Ok(vec![b'{', b'}']));
    assert_eq!(decode(&[0, 2, b'{', b'}', 9, 9, 9]), Ok(vec![b'{', b'}']));
    assert_eq!(decode(&[0, 0]), Ok(Vec::new()));
    assert_eq!(decode(&[0, 0, 5]), Ok(Vec::new()));
}

#[test]
fn bytes_that_end_mid_frame_are_incomplete() {
    assert_eq!(decode(&[]), Err(FramingError::Incomplete));
    assert_eq!(decode(&[0]), Err(FramingError::Incomplete));
    assert_eq!(decode(&[0, 3, b'a', b'b']), Err(FramingError::Incomplete));
    assert_eq!(decode(&[1, 0, 1, 2, 3]), Err(FramingError::Incomplete));
}

#[test]
fn decode_gives_back_what_encode_framed() {
    for len in [0usize, 1, 13, 255, 256, 257, 4000, MAX_BODY] {
        let body: Vec<u8> = (0..len).map(|i| (i % 251) as u8).collect();
        let mut frame = encode(&body).unwrap();
        assert_eq!(decode(&frame), Ok(body.clone()));
        frame.extend_from_slice(&[1, 2, 3]);
        assert_eq!(decode(&frame), Ok(body.clone()));
        if len > 0 {
            assert_eq!(decode(&frame[..len + 1]), Err(FramingError::Incomplete));
        }
    }
}
