use engine::gliw::bmp::{check_bmp_data, parse_bmp_header, read_i32_le, BmpError, BmpInfo, BMP_HEADER_SIZE};

fn put(h: &mut [u8], at: usize, v: i32) {
    h[at..at + 4].copy_from_slice(&v.to_le_bytes());
}

fn header(width: i32, height: i32, bpp: i32, compression: i32, size: i32) -> Vec<u8> {
    let mut h = vec![0u8; BMP_HEADER_SIZE];
    h[0] = b'B';
    h[1] = b'M';
    put(&mut h, 0x12, width);
    put(&mut h, 0x16, height);
    put(&mut h, 0x1C, bpp);
    put(&mut h, 0x1E, compression);
    put(&mut h, 0x22, size);
    h
}

#[test]
fn reads_little_endian_integers() {
    assert_eq!(read_i32_le(&[0x78, 0x56, 0x34, 0x12], 0), 0x12345678);
    assert_eq!(read_i32_le(&[0, 0xff, 0xff, 0xff, 0xff], 1), -1);
    assert_eq!(read_i32_le(&[0, 0, 0, 0x80], 0), i32::MIN);
}

#[test]
fn parses_a_24_bit_header() {
    assert_eq!(
        parse_bmp_header(&header(4, 2, 24, 0, 0)),
        Ok(BmpInfo { width: 4, height: 2, image_size: 24 })
    );
    assert_eq!(
        parse_bmp_header(&header(3, 3, 24, 0, 36)),
        Ok(BmpInfo { width: 3, height: 3, image_size: 36 })
    );
}

#[test]
fn refuses_bad_headers() {
    assert_eq!(parse_bmp_header(&header(4, 2, 24, 0, 0)[..53]), Err(BmpError::Truncated));
    let mut h = header(4, 2, 24, 0, 0);
    h[1] = b'X';
    assert_eq!(parse_bmp_header(&h), Err(BmpError::NotBitmap));
    assert_eq!(parse_bmp_header(&header(4, 2, 32, 0, 0)), Err(BmpError::Unsupported));
    assert_eq!(parse_bmp_header(&header(4, 2, 24, 1, 0)), Err(BmpError::Unsupported));
    assert_eq!(parse_bmp_header(&header(-4, 2, 24, 0, 0)), Err(BmpError::Unsupported));
    assert_eq!(parse_bmp_header(&header(4, 2, 24, 0, -8)), Err(BmpError::Unsupported));
}

#[test]
fn checks_the_data_length() {
    let info = BmpInfo { width: 4, height: 2, image_size: 24 };
    assert_eq!(check_bmp_data(&info, 24), Ok(()));
    assert_eq!(check_bmp_data(&info, 23), Err(BmpError::SizeMismatch));
}
