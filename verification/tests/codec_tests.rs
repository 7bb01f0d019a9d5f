use canopen_node::codec::{pack_data, unpack_data, vec_to_u64};

fn cut_data_with_bits(vec: &Vec<(u64, u8)>) -> Vec<(u64, u8)> {
    let mut res: Vec<(u64, u8)> = Vec::new();
    for (data, bits) in vec {
        res.push((data & ((1 << bits) - 1), *bits));
    }
    res
}

#[test]
fn test_data_to_packet_and_packet_to_data() {
    // Convert initial_data to a packet
    let initial_data = vec![(0xABCDu64, 12), (0x123456u64, 20), (0x0102u64, 9)];
    let packet = pack_data(&initial_data);
    println!("xfguo: packet = {:?}", packet);

    let result_data = unpack_data(&packet, &vec![12, 20, 9]);
    println!("xfguo: unpacked = {:?}", result_data);

    let cutted_data = cut_data_with_bits(&initial_data);
    assert_eq!(result_data, cutted_data);
}

#[test]
fn pack_example_round_trips() {
    // Values already inside their declared widths.
    let data = vec![(0xABCu64, 12), (0x23456u64, 20), (0x102u64, 9)];
    let packet = pack_data(&data);
    // 41 declared bits need six bytes, the value right-aligned.
    assert_eq!(packet.len(), 6);
    assert_eq!(packet, vec![0x01, 0x57, 0x84, 0x68, 0xAD, 0x02]);
    let unpacked = unpack_data(&packet, &vec![12, 20, 9]);
    assert_eq!(unpacked, data);
}

#[test]
fn pack_masks_values_wider_than_declared() {
    let packet = pack_data(&vec![(0xFFFFu64, 8)]);
    assert_eq!(packet, vec![0xFF]);
    let packet = pack_data(&vec![(0x1234u64, 4)]);
    assert_eq!(packet, vec![0x04]);
}

#[test]
fn pack_empty_is_empty() {
    let packet = pack_data(&Vec::new());
    assert_eq!(packet.len(), 0);
    let unpacked = unpack_data(&packet, &Vec::new());
    assert_eq!(unpacked.len(), 0);
}

#[test]
fn pack_single_full_width_field() {
    let data = vec![(0xDEADBEEF01020304u64, 64)];
    let packet = pack_data(&data);
    assert_eq!(packet, vec![0xDE, 0xAD, 0xBE, 0xEF, 0x01, 0x02, 0x03, 0x04]);
    let unpacked = unpack_data(&packet, &vec![64]);
    assert_eq!(unpacked, data);
}

#[test]
fn pack_right_aligns_partial_width() {
    // 9 bits 0x102 -> two bytes 0x01, 0x02.
    let packet = pack_data(&vec![(0x102u64, 9)]);
    assert_eq!(packet, vec![0x01, 0x02]);
}

#[test]
fn vec_to_u64_reads_big_endian() {
    assert_eq!(vec_to_u64(&vec![]), 0);
    assert_eq!(vec_to_u64(&vec![0x12]), 0x12);
    assert_eq!(vec_to_u64(&vec![0x12, 0x34]), 0x1234);
    assert_eq!(
        vec_to_u64(&vec![1, 2, 3, 4, 5, 6, 7, 8]),
        0x0102030405060708
    );
}
