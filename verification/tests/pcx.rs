use world_scene::height_map::HeightMap;
use world_scene::pcx::{load_height_map, read_pcx_header, PcxError, PCX_HEADER_SIZE};

fn header(width: u16, y_min: u16, y_max: u16) -> Vec<u8> {
    let mut h = vec![0u8; PCX_HEADER_SIZE];
    h[0] = 0x0A;
    h[1] = 0x05;
    h[2] = 1;
    h[3] = 8;
    h[6..8].copy_from_slice(&y_min.to_le_bytes());
    h[8..10].copy_from_slice(&(width - 1).to_le_bytes());
    h[10..12].copy_from_slice(&y_max.to_le_bytes());
    h[16] = 0xAB;
    h[65] = 1;
    h[66..68].copy_from_slice(&width.to_le_bytes());
    h[68..70].copy_from_slice(&2u16.to_le_bytes());
    h[127] = 0xCD;
    h
}

#[test]
fn header_fields_are_little_endian() {
    let h = read_pcx_header(&header(300, 2, 5)).ok().unwrap();
    assert_eq!(h.manufacturer, 0x0A);
    assert_eq!(h.version, 5);
    assert_eq!(h.encoding, 1);
    assert_eq!(h.bits_per_plane, 8);
    assert_eq!(h.y_min, 2);
    assert_eq!(h.x_max, 299);
    assert_eq!(h.y_max, 5);
    assert_eq!(h.bytes_per_plane_line, 300);
    assert_eq!(h.palette_info, 2);
    assert_eq!(h.color_planes, 1);
    assert_eq!(h.palette.len(), 48);
    assert_eq!(h.palette[0], 0xAB);
    assert_eq!(h.padding.len(), 54);
    assert_eq!(h.padding[53], 0xCD);
}

#[test]
fn short_header_is_eof() {
    assert_eq!(read_pcx_header(&[0x0A; 127]).err(), Some(PcxError::UnexpectedEof));
    assert_eq!(load_height_map(&[0x0A; 10]).err(), Some(PcxError::UnexpectedEof));
}

#[test]
fn decodes_literals_and_runs() {
    // 3 x 2 image: one literal, a run of 4, one literal.
    let mut bytes = header(3, 0, 1);
    bytes.extend_from_slice(&[0x10, 0xC4, 0x20, 0x05]);
    let data = load_height_map(&bytes).ok().unwrap();
    assert_eq!(data.width, 3);
    assert_eq!(data.height, 2);
    let expect = |b: u8| 0x1FF00u32 | (0xFF - b) as u32;
    assert_eq!(
        data.data,
        vec![expect(0x10), expect(0x20), expect(0x20), expect(0x20), expect(0x20), expect(0x05)]
    );
    // The elevation byte is the inverted pixel byte.
    let map = HeightMap::from_data(data);
    assert_eq!(map.elevation(0, 0), 0xEF);
    assert_eq!(map.elevation(2, 1), 0xFA);
    assert_eq!(map.elevation(100, 100), 0xFA);
}

#[test]
fn literal_byte_below_run_marker() {
    let mut bytes = header(1, 0, 0);
    bytes.push(0xBF);
    let data = load_height_map(&bytes).ok().unwrap();
    assert_eq!(data.data, vec![0x1FF40]);
}

#[test]
fn invalid_header_is_refused() {
    let mut bytes = header(1, 0, 0);
    bytes[0] = 0x0B;
    bytes.push(0);
    assert_eq!(load_height_map(&bytes).err(), Some(PcxError::InvalidHeader));
    let mut bytes = header(1, 0, 0);
    bytes[1] = 3;
    bytes.push(0);
    assert_eq!(load_height_map(&bytes).err(), Some(PcxError::InvalidHeader));
}

#[test]
fn invalid_dimensions_are_refused() {
    let bytes = header(1, 5, 4);
    assert_eq!(load_height_map(&bytes).err(), Some(PcxError::InvalidDimensions));
    let bytes = header(1, 0, 0xFFFF);
    assert_eq!(load_height_map(&bytes).err(), Some(PcxError::InvalidDimensions));
}

#[test]
fn truncated_pixels_are_eof() {
    let mut bytes = header(2, 0, 1);
    bytes.extend_from_slice(&[1, 2, 3]);
    assert_eq!(load_height_map(&bytes).err(), Some(PcxError::UnexpectedEof));
    let mut bytes = header(2, 0, 1);
    bytes.push(0xC3);
    assert_eq!(load_height_map(&bytes).err(), Some(PcxError::UnexpectedEof));
}

#[test]
fn run_past_the_end_is_refused() {
    let mut bytes = header(2, 0, 0);
    bytes.extend_from_slice(&[0xC3, 0x00]);
    assert_eq!(load_height_map(&bytes).err(), Some(PcxError::RunOverrun));
}

#[test]
fn empty_runs_are_skipped() {
    let mut bytes = header(1, 0, 0);
    bytes.extend_from_slice(&[0xC0, 0x11, 0x01]);
    let data = load_height_map(&bytes).ok().unwrap();
    assert_eq!(data.data, vec![0x1FFFE]);
}
