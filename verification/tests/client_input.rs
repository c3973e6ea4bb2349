use readsb::net::client::{beast_input_payload, hex_input_payloads};

#[test]
fn beast_payload_after_dle_start() {
    let buf = [0u8, 0x10, 0x02, 1, 2, 3, 4, 5, 6, 7, 8, 9, 10, 11];
    assert_eq!(beast_input_payload(&buf, buf.len()), Some(vec![7, 8, 9, 10, 11]));
    assert_eq!(beast_input_payload(&buf, 9), None);
}

#[test]
fn beast_payload_none_without_start() {
    let buf = [0u8; 20];
    assert_eq!(beast_input_payload(&buf, 20), None);
}

#[test]
fn hex_payloads_per_line() {
    let data = b"*0102;\nnoise\n@ff;\n*0x;";
    let p = hex_input_payloads(data);
    assert_eq!(p, vec![vec![1, 2], vec![0xff]]);
}

#[test]
fn hex_payloads_skip_invalid_utf8() {
    let data = [b'*', 0xff, b';', b'\n', b'*', b'1', b'2', b';'];
    assert_eq!(hex_input_payloads(&data), vec![vec![0x12]]);
    assert_eq!(hex_input_payloads(b""), Vec::<Vec<u8>>::new());
}
