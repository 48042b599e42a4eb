use ockam_multiaddr::varint::read;

fn encoded(n: u64) -> Vec<u8> {
    let mut out = Vec::new();
    ockam_multiaddr::varint::write(n, &mut out);
    out
}

#[test]
fn varint_exact_encodings() {
    assert_eq!(encoded(0), vec![0x00]);
    assert_eq!(encoded(1), vec![0x01]);
    assert_eq!(encoded(127), vec![0x7f]);
    assert_eq!(encoded(128), vec![0x80, 0x01]);
    assert_eq!(encoded(300), vec![0xac, 0x02]);
    assert_eq!(encoded(62526), vec![0xbe, 0xe8, 0x03]);
    assert_eq!(encoded(u32::MAX as u64), vec![0xff, 0xff, 0xff, 0xff, 0x0f]);
}

#[test]
fn varint_write_appends() {
    let mut out = vec![1u8, 2, 3];
    ockam_multiaddr::varint::write(300, &mut out);
    assert_eq!(out, vec![1, 2, 3, 0xac, 0x02]);
}

#[test]
fn varint_reads_back() {
    for n in [0u32, 1, 127, 128, 300, 16383, 16384, 62526, u32::MAX] {
        let mut bytes = encoded(n as u64);
        let len = bytes.len();
        bytes.extend_from_slice(&[0xff, 0x00]);
        assert_eq!(read(&bytes), Some((n, len)));
    }
}

#[test]
fn varint_rejects_malformed() {
    assert_eq!(read(&[]), None);
    assert_eq!(read(&[0x80]), None);
    assert_eq!(read(&[0x80, 0x00]), None);
    assert_eq!(read(&[0xff, 0xff, 0xff, 0xff, 0xff, 0x01]), None);
    assert_eq!(read(&[0xff, 0xff, 0xff, 0xff, 0x10]), None);
    assert_eq!(read(&[0xff, 0xff, 0xff, 0xff, 0x0f]), Some((u32::MAX, 5)));
}
