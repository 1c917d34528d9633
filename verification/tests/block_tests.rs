use pool_core::block::{Block, BlockService};

fn numbered_block(n: i64) -> Block {
    Block {
        block_number: n,
        current_hash: vec![0xaa],
        leading_zeroes: 5,
        difficulty_number: 100,
        epoch_time: 1,
        current_time: 2,
        extra: vec![],
        interlink: vec![],
        output_index: 0,
        transaction_id: String::from("t"),
    }
}

#[test]
fn empty_cache_serves_zero_valued_default() {
    let service = BlockService::new();
    let latest = service.get_latest();
    assert_eq!(latest.block_number, 0);
    assert_eq!(latest.current_hash, Vec::<u8>::new());
    assert_eq!(latest.leading_zeroes, 0);
    assert_eq!(latest.difficulty_number, 0);
    assert_eq!(latest.epoch_time, 0);
    assert_eq!(latest.current_time, 0);
    assert_eq!(latest.extra, Vec::<u8>::new());
    assert_eq!(latest.interlink, Vec::<Vec<u8>>::new());
}

#[test]
fn strictly_newer_block_supersedes_head() {
    let mut service = BlockService::new();
    service.observe_block(numbered_block(5));
    assert_eq!(service.get_latest().block_number, 5);
    service.observe_block(numbered_block(7));
    assert_eq!(service.get_latest().block_number, 7);
}

#[test]
fn block_numbered_zero_never_supersedes_the_default() {
    // The empty cache serves the zero-valued default block, and an update
    // is a no-op unless the fetched number strictly exceeds the served
    // head's — so a block numbered 0 (or less) changes nothing.
    let mut service = BlockService::new();
    service.observe_block(numbered_block(0));
    let latest = service.get_latest();
    assert_eq!(latest.block_number, 0);
    assert_eq!(latest.current_hash, Vec::<u8>::new());
    assert_eq!(latest.transaction_id, "");
    service.observe_block(numbered_block(-5));
    assert_eq!(service.get_latest().transaction_id, "");
    service.observe_block(numbered_block(1));
    assert_eq!(service.get_latest().transaction_id, "t");
}

#[test]
fn stale_or_equal_block_is_a_no_op() {
    let mut service = BlockService::new();
    service.observe_block(numbered_block(5));
    service.observe_block(numbered_block(5));
    assert_eq!(service.get_latest().block_number, 5);
    service.observe_block(numbered_block(4));
    assert_eq!(service.get_latest().block_number, 5);
}

#[test]
fn capacity_keeps_the_newest() {
    let mut service = BlockService::new();
    for n in 1..=25 {
        service.observe_block(numbered_block(n));
    }
    assert_eq!(service.get_latest().block_number, 25);
}

#[test]
fn readable_block_renders_hex() {
    let block = Block {
        block_number: 3,
        current_hash: vec![0xaa, 0xbb],
        leading_zeroes: 4,
        difficulty_number: 9,
        epoch_time: 10,
        current_time: 20,
        extra: vec![0x0f],
        interlink: vec![vec![0x01, 0x02], vec![]],
        output_index: 0,
        transaction_id: String::from("t"),
    };
    let readable = block.to_readable();
    assert_eq!(readable.block_number, 3);
    assert_eq!(readable.current_hash, "aabb");
    assert_eq!(readable.leading_zeroes, 4);
    assert_eq!(readable.difficulty_number, 9);
    assert_eq!(readable.extra, "0f");
    assert_eq!(readable.interlink, vec![String::from("0102"), String::new()]);
}

#[test]
fn duplicate_copies_every_field() {
    let block = numbered_block(9);
    let copy = block.duplicate();
    assert_eq!(copy.block_number, block.block_number);
    assert_eq!(copy.current_hash, block.current_hash);
    assert_eq!(copy.interlink, block.interlink);
    assert_eq!(copy.transaction_id, block.transaction_id);
}
