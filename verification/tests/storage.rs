use fediiverse::olv::local_storage::{
    storage_image, storage_save_ops, storage_writes, FileOp, KEY_OFFSET, STORAGE_LEN, VALUE_OFFSET,
};

const HEADER: [(u64, &[u8]); 9] = [
    (0x0000, b"SMFC"),
    (0x0004, b"\x09"),
    (0x1000, b"\x01"),
    (0x1004, b"\x01"),
    (0x1008, b"\x01"),
    (0x1048, b"\xFF\xFF\xFF\xFF"),
    (0x1148, b"\x01"),
    (0x114c, b"\x01"),
    (0x114d, b"\x08"),
];

#[test]
fn writes_in_order() {
    let writes = storage_writes("fediiverse_token", "secret");
    assert_eq!(writes.len(), 11);
    for (w, (offset, bytes)) in writes.iter().zip(HEADER.iter()) {
        assert_eq!(w.offset, *offset);
        assert_eq!(w.bytes.as_slice(), *bytes);
    }
    assert_eq!(writes[9].offset, 0x3000);
    assert_eq!(writes[9].bytes, b"fediiverse_token".to_vec());
    assert_eq!(writes[10].offset, 0xb000);
    assert_eq!(writes[10].bytes, b"secret".to_vec());
}

#[test]
fn image_layout() {
    let image = storage_image("fediiverse_token", "secret");
    assert_eq!(image.len() as u64, STORAGE_LEN);
    assert_eq!(image.len(), 8_433_950);
    for (offset, bytes) in HEADER.iter() {
        let o = *offset as usize;
        assert_eq!(&image[o..o + bytes.len()], *bytes);
    }
    let k = KEY_OFFSET as usize;
    assert_eq!(&image[k..k + 16], b"fediiverse_token");
    let v = VALUE_OFFSET as usize;
    assert_eq!(&image[v..v + 6], b"secret");
    // everything else is zero
    let mut written = vec![false; image.len()];
    for (offset, bytes) in HEADER.iter() {
        for i in 0..bytes.len() {
            written[*offset as usize + i] = true;
        }
    }
    for i in 0..16 {
        written[k + i] = true;
    }
    for i in 0..6 {
        written[v + i] = true;
    }
    for i in 0..image.len() {
        if !written[i] {
            assert_eq!(image[i], 0, "byte {i}");
        }
    }
}

#[test]
fn utf8_value_bytes() {
    let image = storage_image("k", "é");
    let v = VALUE_OFFSET as usize;
    assert_eq!(&image[v..v + 2], "é".as_bytes());
    assert_eq!(image[v + 2], 0);
}

#[test]
fn long_value_extends_the_file() {
    let value = "x".repeat(8_433_950 - 0xb000 + 10);
    let image = storage_image("key", &value);
    assert_eq!(image.len(), 0xb000 + value.len());
    assert_eq!(image.len(), 8_433_960);
    assert!(image[0xb000..].iter().all(|b| *b == b'x'));
}

#[test]
fn long_key_is_overwritten_by_value() {
    let key = "k".repeat(0x8000 + 2);
    let image = storage_image(&key, "vv");
    let k = KEY_OFFSET as usize;
    assert_eq!(image[k + 0x7fff], b'k');
    assert_eq!(&image[0xb000..0xb002], b"vv");
}

fn replay(prior: Vec<u8>, ops: Vec<FileOp>) -> Vec<u8> {
    let mut file = prior;
    for op in ops {
        match op {
            FileOp::Recreate => file.clear(),
            FileOp::SetLen(n) => file.resize(n as usize, 0),
            FileOp::Write(w) => {
                let o = w.offset as usize;
                if file.len() < o + w.bytes.len() {
                    file.resize(o + w.bytes.len(), 0);
                }
                file[o..o + w.bytes.len()].copy_from_slice(&w.bytes);
            }
        }
    }
    file
}

#[test]
fn save_ops_in_order() {
    let ops = storage_save_ops("fediiverse_token", "secret");
    assert_eq!(ops.len(), 13);
    assert!(matches!(ops[0], FileOp::Recreate));
    assert!(matches!(ops[1], FileOp::SetLen(8_433_950)));
    match &ops[12] {
        FileOp::Write(w) => {
            assert_eq!(w.offset, 0xb000);
            assert_eq!(w.bytes, b"secret".to_vec());
        }
        other => panic!("unexpected {other:?}"),
    }
}

#[test]
fn save_ignores_prior_file() {
    let expected = storage_image("fediiverse_token", "secret");
    let fresh = replay(Vec::new(), storage_save_ops("fediiverse_token", "secret"));
    assert_eq!(fresh, expected);
    let garbage: Vec<u8> = (0..9_000_000u32).map(|i| (i % 251) as u8 + 1).collect();
    let over_old = replay(garbage, storage_save_ops("fediiverse_token", "secret"));
    assert_eq!(over_old, expected);
}
