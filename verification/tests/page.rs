use pagestore::blocks::{Block, BlockError};

#[test]
fn create_has_header_capacity() {
    let block = Block::create();
    assert_eq!(block.get_tip(), 256);
    assert_eq!(block.get_free_space(), 4096 - 256);
    assert_eq!(block.get_free_space(), 3840);
}

#[test]
fn create_is_zero_filled_outside_tip_field() {
    let block = Block::create();
    assert_eq!(block.raw_read_at(0), 0);
    assert_eq!(block.raw_read_at(4), 1);
    assert_eq!(block.raw_read_at(5), 0);
    assert_eq!(block.raw_read_at(6), 0);
    assert_eq!(block.raw_read_at(256), 0);
    assert_eq!(block.raw_read_at(4095), 0);
}

#[test]
fn append_exactly_free_space_is_refused() {
    // The tip must stay strictly below 4096, so a payload of exactly the
    // free space is refused and the page is untouched.
    let mut block = Block::create();
    let free = block.get_free_space() as usize;
    let payload = vec![0xABu8; free];
    assert_eq!(block.try_write(&payload), Err(BlockError::OutOfSpace));
    assert_eq!(block.get_tip(), 256);
    assert_eq!(block.get_free_space(), 3840);
    assert_eq!(block.raw_read_at(256), 0);
}

#[test]
fn append_free_space_plus_one_is_refused() {
    let mut block = Block::create();
    let free = block.get_free_space() as usize;
    let payload = vec![0xCDu8; free + 1];
    assert_eq!(block.try_write(&payload), Err(BlockError::OutOfSpace));
    assert_eq!(block.get_tip(), 256);
    assert_eq!(block.raw_read_at(256), 0);
    assert_eq!(block.raw_read_at(4095), 0);
}

#[test]
fn append_free_space_minus_one_fills_the_page() {
    let mut block = Block::create();
    let free = block.get_free_space() as usize;
    let payload = vec![0x5Au8; free - 1];
    assert_eq!(block.try_write(&payload), Ok(()));
    assert_eq!(block.get_tip(), 4095);
    assert_eq!(block.get_free_space(), 1);
    assert_eq!(block.raw_read_at(256), 0x5A);
    assert_eq!(block.raw_read_at(4094), 0x5A);
    assert_eq!(block.raw_read_at(4095), 0);
}

#[test]
fn appends_advance_tip_and_keep_prior_bytes() {
    let mut block = Block::create();
    assert_eq!(block.try_write(b"abc"), Ok(()));
    assert_eq!(block.get_tip(), 259);
    assert_eq!(block.try_write(b"defg"), Ok(()));
    assert_eq!(block.get_tip(), 263);
    assert_eq!(block.try_write(b"h"), Ok(()));
    assert_eq!(block.get_tip(), 264);
    assert_eq!(block.get_tip(), 256 + 3 + 4 + 1);
    assert_eq!(block.raw_read_span(256, 8), &b"abcdefgh"[..]);
    assert_eq!(block.raw_read_at(256), b'a');
    assert_eq!(block.raw_read_at(262), b'g');
}

#[test]
fn failed_append_changes_nothing_between_successes() {
    let mut block = Block::create();
    assert_eq!(block.try_write(b"abc"), Ok(()));
    let too_big = vec![0u8; 5000];
    assert_eq!(block.try_write(&too_big), Err(BlockError::OutOfSpace));
    assert_eq!(block.get_tip(), 259);
    assert_eq!(block.try_write(b"xy"), Ok(()));
    assert_eq!(block.get_tip(), 261);
    assert_eq!(block.raw_read_span(256, 5), &b"abcxy"[..]);
}

#[test]
fn out_of_range_reads_are_silent() {
    let block = Block::create();
    assert_eq!(block.raw_read_at(4096), 0);
    assert_eq!(block.raw_read_at(usize::MAX), 0);
    assert_eq!(block.raw_read_span(4090, 100), &b""[..]);
    assert_eq!(block.raw_read_span(0, 4096), &b""[..]);
    assert_eq!(block.raw_read_span(4095, 1), &b""[..]);
}

#[test]
fn in_range_span_reads_back_bytes() {
    let mut block = Block::create();
    assert_eq!(block.try_write(b"Hello"), Ok(()));
    assert_eq!(block.raw_read_span(256, 5), &b"Hello"[..]);
    assert_eq!(block.raw_read_span(257, 3), &b"ell"[..]);
}

#[test]
fn persist_image_round_trips() {
    let mut block = Block::create();
    assert_eq!(block.try_write(b"payload bytes"), Ok(()));
    let image = block.to_bytes();
    assert_eq!(image.len(), 4096);
    let reloaded = Block::from_bytes(&image);
    assert_eq!(reloaded.get_tip(), block.get_tip());
    assert_eq!(reloaded.to_bytes(), image);
    assert_eq!(reloaded.raw_read_span(256, 13), &b"payload bytes"[..]);
}

#[test]
fn short_load_zero_fills_the_tail() {
    let block = Block::from_bytes(&[9, 8, 7]);
    assert_eq!(block.raw_read_at(0), 9);
    assert_eq!(block.raw_read_at(1), 8);
    assert_eq!(block.raw_read_at(2), 7);
    assert_eq!(block.raw_read_at(3), 0);
    assert_eq!(block.get_tip(), 0);
}

#[test]
fn long_load_keeps_first_page_only() {
    let mut bytes = vec![0u8; 5000];
    bytes[4095] = 0x42;
    bytes[4096] = 0x43;
    let block = Block::from_bytes(&bytes);
    assert_eq!(block.raw_read_at(4095), 0x42);
    assert_eq!(block.to_bytes().len(), 4096);
}

#[test]
fn set_tip_round_trips_through_the_tip_field() {
    let mut block = Block::create();
    block.set_tip(1234);
    assert_eq!(block.get_tip(), 1234);
    assert_eq!(block.raw_read_at(4), (1234 / 256) as u8);
    assert_eq!(block.raw_read_at(5), (1234 % 256) as u8);
}
