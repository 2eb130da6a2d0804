//! Dataset iteration and text relabeling.

use tch_comm::buffer::Buffer;
use tch_comm::data::{Iter2, TextData};
use tch_comm::device::Device;
use tch_comm::wrappers::kind::Kind;

fn cpu_buffer(data: Vec<i64>) -> Buffer {
    Buffer::new(Kind::Int64, Device::Cpu, data)
}

#[test]
fn iter2_full_batches_only_by_default() {
    let xs = cpu_buffer(vec![1, 2, 3, 4, 5]);
    let ys = cpu_buffer(vec![10, 20, 30, 40, 50]);
    let mut it = Iter2::new(&xs, &ys, 2);
    let (bx, by) = it.next().unwrap();
    assert_eq!(bx.data, vec![1, 2]);
    assert_eq!(by.data, vec![10, 20]);
    let (bx, by) = it.next().unwrap();
    assert_eq!(bx.data, vec![3, 4]);
    assert_eq!(by.data, vec![30, 40]);
    // The last element would make a short batch, which is skipped.
    assert!(it.next().is_none());
}

#[test]
fn iter2_returns_smaller_last_batch_when_asked() {
    let xs = cpu_buffer(vec![1, 2, 3, 4, 5]);
    let ys = cpu_buffer(vec![10, 20, 30, 40, 50]);
    let mut it = Iter2::new(&xs, &ys, 2);
    it.return_smaller_last_batch();
    it.next().unwrap();
    it.next().unwrap();
    let (bx, by) = it.next().unwrap();
    assert_eq!(bx.data, vec![5]);
    assert_eq!(by.data, vec![50]);
    assert!(it.next().is_none());
}

#[test]
fn iter2_moves_batches_to_the_device() {
    let xs = cpu_buffer(vec![1, 2]);
    let ys = cpu_buffer(vec![3, 4]);
    let mut it = Iter2::new(&xs, &ys, 2);
    it.to_device(Device::Cuda(1));
    let (bx, by) = it.next().unwrap();
    assert_eq!(bx.device, Device::Cuda(1));
    assert_eq!(by.device, Device::Cuda(1));
}

#[test]
fn iter2_shuffle_reorders_pairs_together() {
    let xs = cpu_buffer(vec![1, 2, 3, 4]);
    let ys = cpu_buffer(vec![10, 20, 30, 40]);
    let mut it = Iter2::new(&xs, &ys, 4);
    let index: Vec<i64> = vec![3, 0, 2, 1];
    it.shuffle(&index);
    let (bx, by) = it.next().unwrap();
    assert_eq!(bx.data, vec![4, 1, 3, 2]);
    assert_eq!(by.data, vec![40, 10, 30, 20]);
}

#[test]
fn iter2_zero_batch_size_yields_nothing() {
    let xs = cpu_buffer(vec![1, 2]);
    let ys = cpu_buffer(vec![3, 4]);
    let mut it = Iter2::new(&xs, &ys, 0);
    assert!(it.next().is_none());
}

#[test]
fn text_data_relabels_by_first_occurrence() {
    let text: Vec<u8> = b"abcab".to_vec();
    let td = TextData::from_bytes(&text);
    assert_eq!(td.char_for_label, b"abc".to_vec());
    assert_eq!(td.labels(), 3);
    let data = td.data();
    assert_eq!(data.data, vec![0, 1, 2, 0, 1]);
    assert_eq!(data.kind, Kind::Uint8);
}

#[test]
fn text_data_empty_text() {
    let text: Vec<u8> = Vec::new();
    let td = TextData::from_bytes(&text);
    assert_eq!(td.labels(), 0);
    assert_eq!(td.data().data, Vec::<i64>::new());
}

#[test]
fn text_data_single_repeated_byte() {
    let text: Vec<u8> = vec![7, 7, 7, 7];
    let td = TextData::from_bytes(&text);
    assert_eq!(td.labels(), 1);
    assert_eq!(td.char_for_label, vec![7]);
    assert_eq!(td.data().data, vec![0, 0, 0, 0]);
}
