//! The collective operations, run by a harness that plays every rank of a
//! group in one process.

use tch_comm::buffer::Buffer;
use tch_comm::device::Device;
use tch_comm::error::TchError;
use tch_comm::wrappers::kind::Kind;
use tch_comm::wrappers::nccl::{BarrierSync, CNCCL, CStore, ReduceOpType};

fn form_group(size: i64) -> Vec<CNCCL> {
    let mut store = CStore::new();
    for r in 0..size {
        store.register(r, size);
    }
    let mut groups = Vec::new();
    for r in 0..size {
        groups.push(CNCCL::new(&store, r, size, Device::Cpu).unwrap());
    }
    groups
}

fn cpu_buffer(data: Vec<i64>) -> Buffer {
    Buffer::new(Kind::Int64, Device::Cpu, data)
}

fn sum_contributions(size: i64, elems: usize) -> Vec<Vec<Buffer>> {
    let mut contributions = Vec::new();
    for r in 0..size {
        contributions.push(vec![cpu_buffer(vec![r + 1; elems])]);
    }
    contributions
}

#[test]
fn all_reduce_sum_of_ranks_gives_triangular_number() {
    // Every rank contributes `rank + 1`; all four ranks must see 4*5/2 = 10
    // at every position.
    let size = 4;
    let mut groups = form_group(size);
    let contributions = sum_contributions(size, 3);
    for g in groups.iter_mut() {
        let out = g
            .all_reduce(&contributions, ReduceOpType::Sum)
            .unwrap()
            .unwrap();
        assert_eq!(out.len(), 1);
        assert_eq!(out[0].data, vec![10, 10, 10]);
        assert_eq!(out[0].kind, Kind::Int64);
        assert_eq!(out[0].device, Device::Cpu);
    }
}

#[test]
fn all_reduce_operators() {
    let size = 3;
    let mut groups = form_group(size);
    let vals = [3i64, -2, 5];
    let mut contributions = Vec::new();
    for r in 0..size as usize {
        contributions.push(vec![cpu_buffer(vec![vals[r]])]);
    }
    let run = |g: &mut CNCCL, op| {
        g.all_reduce(&contributions, op).unwrap().unwrap()[0].data[0]
    };
    assert_eq!(run(&mut groups[0], ReduceOpType::Sum), 6);
    assert_eq!(run(&mut groups[0], ReduceOpType::Product), -30);
    assert_eq!(run(&mut groups[0], ReduceOpType::Min), -2);
    assert_eq!(run(&mut groups[0], ReduceOpType::Max), 5);
    assert_eq!(run(&mut groups[0], ReduceOpType::BAnd), 3 & -2 & 5);
    assert_eq!(run(&mut groups[0], ReduceOpType::BOr), 3 | -2 | 5);
    assert_eq!(run(&mut groups[0], ReduceOpType::BXOr), 3 ^ -2 ^ 5);
    assert_eq!(run(&mut groups[0], ReduceOpType::PremulSum), 6);
    // Avg truncates toward zero: 6 / 3 = 2.
    assert_eq!(run(&mut groups[0], ReduceOpType::Avg), 2);
}

#[test]
fn all_reduce_avg_truncates_toward_zero() {
    let size = 3;
    let mut groups = form_group(size);
    let mut contributions = Vec::new();
    for v in [-1i64, -2, -4] {
        contributions.push(vec![cpu_buffer(vec![v])]);
    }
    let out = groups[0]
        .all_reduce(&contributions, ReduceOpType::Avg)
        .unwrap()
        .unwrap();
    assert_eq!(out[0].data[0], -2); // -7 / 3 truncated toward zero
}

#[test]
fn all_reduce_count_mismatch() {
    let size = 3;
    let mut groups = form_group(size);
    // Only two contribution lists for a group of three.
    let contributions = sum_contributions(2, 1);
    let r = groups[0].all_reduce(&contributions, ReduceOpType::Sum);
    assert!(matches!(r, Err(TchError::BufferCountMismatch)));
}

#[test]
fn all_reduce_device_mismatch() {
    let size = 2;
    let mut groups = form_group(size);
    let contributions = vec![
        vec![Buffer::new(Kind::Int64, Device::Cuda(0), vec![1])],
        vec![cpu_buffer(vec![2])],
    ];
    // Rank 0's own buffer is on the wrong device.
    let r = groups[0].all_reduce(&contributions, ReduceOpType::Sum);
    assert!(matches!(r, Err(TchError::DeviceMismatch)));
    // Each rank validates its own buffers: rank 1's sit on the group's
    // device and the shapes agree, so rank 1 proceeds.
    let out = groups[1].all_reduce(&contributions, ReduceOpType::Sum).unwrap();
    assert!(out.is_some());
}

#[test]
fn all_reduce_ragged_element_counts() {
    let size = 2;
    let mut groups = form_group(size);
    let contributions = vec![
        vec![cpu_buffer(vec![1, 2])],
        vec![cpu_buffer(vec![3])],
    ];
    let r = groups[0].all_reduce(&contributions, ReduceOpType::Sum);
    assert!(matches!(r, Err(TchError::BufferCountMismatch)));
}

#[test]
fn batch_queues_and_flushes_in_order() {
    let size = 2;
    let mut groups = form_group(size);
    let g = &mut groups[0];
    let first = sum_contributions(size, 1);
    let second = vec![
        vec![cpu_buffer(vec![5])],
        vec![cpu_buffer(vec![7])],
    ];
    assert_eq!(g.group_start(), Ok(()));
    assert!(matches!(g.all_reduce(&first, ReduceOpType::Sum), Ok(None)));
    assert!(matches!(g.all_reduce(&second, ReduceOpType::Max), Ok(None)));
    let outs = g.group_end().unwrap();
    assert_eq!(outs.len(), 2);
    assert_eq!(outs[0][0].data, vec![3]); // 1 + 2
    assert_eq!(outs[1][0].data, vec![7]); // max(5, 7)
}

#[test]
fn group_start_does_not_nest() {
    let mut groups = form_group(2);
    let g = &mut groups[0];
    assert_eq!(g.group_start(), Ok(()));
    assert_eq!(g.group_start(), Err(TchError::BatchStateError));
}

#[test]
fn group_end_without_start_fails_and_keeps_prior_results() {
    let size = 2;
    let mut groups = form_group(size);
    let g = &mut groups[0];
    let contributions = sum_contributions(size, 2);
    let out = g
        .all_reduce(&contributions, ReduceOpType::Sum)
        .unwrap()
        .unwrap();
    let before = out[0].data.clone();
    // Closing a batch that was never opened is a usage error ...
    assert!(matches!(g.group_end(), Err(TchError::BatchStateError)));
    // ... and the previously completed collective's result is untouched.
    assert_eq!(out[0].data, before);
    assert_eq!(out[0].data, vec![3, 3]);
}

#[test]
fn barrier_releases_only_after_every_rank_arrives() {
    let size = 3;
    let groups = form_group(size);
    let mut sync = BarrierSync::new(size);
    assert!(!sync.complete());
    assert_eq!(groups[0].barrier(Device::Cpu, &mut sync), Ok(()));
    assert!(!sync.complete());
    assert_eq!(groups[2].barrier(Device::Cpu, &mut sync), Ok(()));
    assert!(!sync.complete());
    assert_eq!(groups[1].barrier(Device::Cpu, &mut sync), Ok(()));
    assert!(sync.complete());
}

#[test]
fn barrier_device_mismatch() {
    let groups = form_group(2);
    let mut sync = BarrierSync::new(2);
    assert_eq!(
        groups[0].barrier(Device::Cuda(1), &mut sync),
        Err(TchError::DeviceMismatch)
    );
    assert!(!sync.complete());
}

#[test]
fn scatter_then_gather_roundtrips() {
    // Scattering a buffer into per-rank shards and gathering them back
    // reproduces the original exactly.
    let size = 4;
    let groups = form_group(size);
    let original = cpu_buffer(vec![9, 8, 7, 6, 5, 4, 3, 2]);
    let mut shards = Vec::new();
    for g in groups.iter() {
        shards.push(g.scatter_to_model_parallel(&original).unwrap());
    }
    assert_eq!(shards[0].data, vec![9, 8]);
    assert_eq!(shards[3].data, vec![3, 2]);
    for g in groups.iter() {
        let gathered = g.gather_from_model_parallel(&shards).unwrap();
        assert_eq!(gathered.data, original.data);
    }
}

#[test]
fn scatter_rejects_uneven_partition() {
    let groups = form_group(4);
    let original = cpu_buffer(vec![1, 2, 3, 4, 5]);
    assert_eq!(
        groups[0].scatter_to_model_parallel(&original).err(),
        Some(TchError::BufferCountMismatch)
    );
}

#[test]
fn copy_to_model_parallel_replicates_unchanged() {
    let groups = form_group(2);
    let b = cpu_buffer(vec![4, 4, 2]);
    let out = groups[1].copy_to_model_parallel(&b).unwrap();
    assert_eq!(out.data, b.data);
    assert_eq!(out.kind, b.kind);
    assert_eq!(out.device, b.device);
}

#[test]
fn reduce_from_model_parallel_sums_across_ranks() {
    let size = 3;
    let groups = form_group(size);
    let contributions = vec![
        cpu_buffer(vec![1, 10]),
        cpu_buffer(vec![2, 20]),
        cpu_buffer(vec![3, 30]),
    ];
    for g in groups.iter() {
        let out = g.reduce_from_model_parallel(&contributions).unwrap();
        assert_eq!(out.data, vec![6, 60]);
    }
}

#[test]
fn all_gather_orders_contributions_by_rank() {
    // Input `rank * 10` across four ranks must give [0, 10, 20, 30],
    // identical and in rank order on every rank.
    let size = 4;
    let groups = form_group(size);
    let mut inputs = Vec::new();
    for r in 0..size {
        inputs.push(cpu_buffer(vec![r * 10]));
    }
    for g in groups.iter() {
        let mut outputs = Vec::new();
        for _ in 0..size {
            outputs.push(cpu_buffer(vec![0]));
        }
        assert_eq!(g.all_gather(&mut outputs, &inputs), Ok(()));
        let got: Vec<i64> = outputs.iter().map(|b| b.data[0]).collect();
        assert_eq!(got, vec![0, 10, 20, 30]);
    }
}

#[test]
fn all_gather_wrong_output_count() {
    let size = 2;
    let groups = form_group(size);
    let inputs = vec![cpu_buffer(vec![1]), cpu_buffer(vec![2])];
    let mut outputs = vec![cpu_buffer(vec![0])];
    assert_eq!(
        groups[0].all_gather(&mut outputs, &inputs),
        Err(TchError::BufferCountMismatch)
    );
}

#[test]
fn scatter_delivers_each_rank_its_share() {
    let size = 3;
    let groups = form_group(size);
    let root_inputs = vec![
        cpu_buffer(vec![11]),
        cpu_buffer(vec![22]),
        cpu_buffer(vec![33]),
    ];
    for (r, g) in groups.iter().enumerate() {
        let mut out = cpu_buffer(vec![0]);
        assert_eq!(g.scatter(&mut out, &root_inputs, 0), Ok(()));
        assert_eq!(out.data, root_inputs[r].data);
    }
}

#[test]
fn scatter_rejects_bad_root() {
    let groups = form_group(2);
    let inputs = vec![cpu_buffer(vec![1]), cpu_buffer(vec![2])];
    let mut out = cpu_buffer(vec![0]);
    assert_eq!(
        groups[0].scatter(&mut out, &inputs, 5),
        Err(TchError::PeerUnreachable)
    );
}

#[test]
fn send_and_recv_transfer_values() {
    let groups = form_group(2);
    let payload = vec![cpu_buffer(vec![1, 2, 3])];
    assert_eq!(groups[0].send(&payload, 1), Ok(()));
    let mut landing = vec![cpu_buffer(vec![0, 0, 0])];
    assert_eq!(groups[1].recv(&mut landing, 0, &payload), Ok(()));
    assert_eq!(landing[0].data, vec![1, 2, 3]);
}

#[test]
fn send_to_out_of_range_peer() {
    let groups = form_group(2);
    let payload = vec![cpu_buffer(vec![1])];
    assert_eq!(groups[0].send(&payload, -1), Err(TchError::PeerUnreachable));
    assert_eq!(groups[0].send(&payload, 2), Err(TchError::PeerUnreachable));
}

#[test]
fn recv_count_mismatch() {
    let groups = form_group(2);
    let payload = vec![cpu_buffer(vec![1, 2])];
    let mut landing = vec![cpu_buffer(vec![0])];
    assert_eq!(
        groups[1].recv(&mut landing, 0, &payload),
        Err(TchError::BufferCountMismatch)
    );
    assert_eq!(landing[0].data, vec![0]);
}

#[test]
fn mismatched_sizes_fail_formation_on_every_rank() {
    // Two ranks claim different group sizes against one store: formation
    // fails on all ranks; nobody proceeds with a partial group.
    let mut store = CStore::new();
    store.register(0, 4);
    store.register(1, 5);
    store.register(2, 4);
    store.register(3, 4);
    for (r, sz) in [(0i64, 4i64), (1, 5), (2, 4), (3, 4)] {
        assert_eq!(
            CNCCL::new(&store, r, sz, Device::Cpu).err(),
            Some(TchError::GroupFormationFailed)
        );
    }
}

#[test]
fn duplicate_rank_fails_formation() {
    let mut store = CStore::new();
    store.register(0, 2);
    store.register(0, 2);
    assert_eq!(
        CNCCL::new(&store, 0, 2, Device::Cpu).err(),
        Some(TchError::GroupFormationFailed)
    );
}

#[test]
fn incomplete_registration_fails_formation() {
    let mut store = CStore::new();
    store.register(0, 2);
    assert_eq!(
        CNCCL::new(&store, 0, 2, Device::Cpu).err(),
        Some(TchError::GroupFormationFailed)
    );
}

#[test]
fn formation_reports_rank_and_size() {
    let groups = form_group(3);
    for (r, g) in groups.iter().enumerate() {
        assert_eq!(g.rank(), r as i64);
        assert_eq!(g.size(), 3);
    }
}

#[test]
fn reduce_op_discriminants() {
    assert_eq!(ReduceOpType::Sum.c_uchar(), 0);
    assert_eq!(ReduceOpType::Avg.c_uchar(), 1);
    assert_eq!(ReduceOpType::Product.c_uchar(), 2);
    assert_eq!(ReduceOpType::Min.c_uchar(), 3);
    assert_eq!(ReduceOpType::Max.c_uchar(), 4);
    assert_eq!(ReduceOpType::BAnd.c_uchar(), 5);
    assert_eq!(ReduceOpType::BOr.c_uchar(), 6);
    assert_eq!(ReduceOpType::BXOr.c_uchar(), 7);
    assert_eq!(ReduceOpType::PremulSum.c_uchar(), 8);
}
