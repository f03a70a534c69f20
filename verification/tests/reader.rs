use aqmon::frame::{Error, PmsAQIData};
use aqmon::reader::BufReader;
use aqmon::source::{ByteSource, EndOfInput, VecSource};

fn valid_frame() -> Vec<u8> {
    vec![
        66, 77, 0, 28, 0, 0, 0, 0, 0, 0, 0, 0, 0, 0, 0, 0, 0, 150, 0, 48, 0, 16, 0, 2, 0, 0, 0, 0,
        151, 0, 2, 26,
    ]
}

#[test]
fn read_aligned_stream_emits_frame() {
    let src = VecSource::new(valid_frame());
    let msg = PmsAQIData::read(src).expect("aligned frame decodes");
    assert_eq!(msg.particles_03um, 150);
    assert_eq!(msg.checksum, 538);
}

#[test]
fn read_resynchronizes_past_garbage() {
    // Three garbage bytes, then a full frame: three resync steps, one frame.
    let mut bytes = vec![7, 66, 99];
    bytes.extend(valid_frame());
    let src = VecSource::new(bytes);
    let msg = PmsAQIData::read(src).expect("stream resynchronizes");
    assert_eq!(msg.particles_05um, 48);
    assert_eq!(msg.framelen, 28);
}

#[test]
fn read_garbage_only_stream_fails_with_read_error() {
    let src = VecSource::new(vec![1u8; 100]);
    match PmsAQIData::read(src) {
        Err(Error::ReadError(EndOfInput)) => {}
        other => panic!("expected a read error, got {:?}", other),
    }
}

#[test]
fn read_short_stream_fails_with_read_error() {
    let src = VecSource::new(vec![66, 77, 0]);
    match PmsAQIData::read(src) {
        Err(Error::ReadError(EndOfInput)) => {}
        other => panic!("expected a read error, got {:?}", other),
    }
}

#[test]
fn vec_source_yields_bytes_in_order() {
    let mut src = VecSource::new(vec![10, 20, 30]);
    assert_eq!(src.read_byte(), Ok(10));
    assert_eq!(src.read_byte(), Ok(20));
    assert_eq!(src.read_byte(), Ok(30));
    assert_eq!(src.read_byte(), Err(EndOfInput));
}

#[test]
fn window_fill_and_snapshot_keep_bytes() {
    let src = VecSource::new(vec![1, 2, 3, 4, 5, 6]);
    let mut reader: BufReader<VecSource, 4> = BufReader::new(src);
    reader.fill().expect("enough bytes to fill");
    let snap = reader.filled_buffer().expect("window is full");
    assert_eq!(snap, vec![1, 2, 3, 4]);
    // A second snapshot consumes nothing.
    let snap2 = reader.filled_buffer().expect("window still full");
    assert_eq!(snap2, vec![1, 2, 3, 4]);
}

#[test]
fn window_read_slides_forward_one_byte() {
    let src = VecSource::new(vec![1, 2, 3, 4, 5, 6]);
    let mut reader: BufReader<VecSource, 4> = BufReader::new(src);
    assert_eq!(reader.read(), Ok(1));
    let snap = reader.filled_buffer().expect("window refilled after read");
    assert_eq!(snap, vec![2, 3, 4, 5]);
    assert_eq!(reader.read(), Ok(2));
    // Only one byte is left in the source now; the refill must fail.
    assert_eq!(reader.read(), Err(EndOfInput));
}

#[test]
fn window_fill_fails_on_short_source() {
    let src = VecSource::new(vec![1, 2]);
    let mut reader: BufReader<VecSource, 4> = BufReader::new(src);
    assert_eq!(reader.fill(), Err(EndOfInput));
}
