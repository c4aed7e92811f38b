use custos::{
    cpu_cached, Alloc, AllocFlag, Buffer, Cache, CacheBuf, Counter, Deps, Device, DeviceError,
    Graph, HostMemory, Ident, Read, WriteBuf, CPU,
};

#[test]
fn counter_draws_rising_identities() {
    let mut counter = Counter::new();
    assert_eq!(counter.get_count(), 0);
    assert_eq!(counter.next_ident(10), Ident { count: 0, len: 10 });
    assert_eq!(counter.next_ident(4), Ident { count: 1, len: 4 });
    assert_eq!(counter.get_count(), 2);
    assert_eq!(counter.peek_ident(3), Ident { count: 2, len: 3 });
    assert_eq!(counter.get_count(), 2);
    counter.bump_count();
    assert_eq!(counter.get_count(), 3);
}

#[test]
fn counter_reset_replays_identities() {
    let mut counter = Counter::new();
    let first = counter.next_ident(10);
    let second = counter.next_ident(20);
    counter.reset_counter(0);
    assert_eq!(counter.next_ident(10), first);
    assert_eq!(counter.next_ident(20), second);
    counter.set_count(7);
    assert_eq!(counter.next_ident(1), Ident { count: 7, len: 1 });
    assert_eq!(Counter::starting_at(5).get_count(), 5);
    assert_eq!(Counter::default().get_count(), 0);
}

#[test]
fn counter_knows_when_it_is_spent() {
    let counter = Counter::starting_at(u64::MAX);
    assert!(!counter.has_next());
    assert!(Counter::new().has_next());
}

#[test]
fn cached_advances_the_counter() {
    let mut device: CPU<i32> = CPU::new();
    let mut counter = Counter::new();
    assert_eq!(0, counter.get_count());

    let buf = device.cached(&mut counter, 10).unwrap();
    assert_eq!(1, counter.get_count());
    assert_eq!(buf.len(), 10);
    assert_eq!(buf.flag(), AllocFlag::Cache);
    assert_eq!(buf.ident(), Some(Ident { count: 0, len: 10 }));
    assert_eq!(device.read(&buf), [0; 10]);
}

#[test]
fn cached_hands_the_buffer_out_again_after_a_reset() {
    let mut device: CPU<i32> = CPU::new();
    let mut counter = Counter::new();

    let buf = device.cached(&mut counter, 10).unwrap();
    device.write(&buf, &[15; 10]);

    counter.set_count(0);
    let again = device.cached(&mut counter, 10).unwrap();
    assert_eq!(device.read(&again), vec![15; 10]);
    assert_eq!(again.handle(), buf.handle());
    assert_eq!(device.allocations(), 1);
}

#[test]
fn test_dealloc_device_cache_cpu() {
    let mut device: CPU<i32> = CPU::new();
    let mut counter = Counter::new();

    assert_eq!(device.cache_len(), 0);
    let a = cpu_cached(&mut device, &mut counter, 10).unwrap();
    assert_eq!(device.cache_len(), 1);

    let stale: Buffer<i32> = Buffer::from_parts(*a.ptr(), a.ident(), a.node());
    assert!(!device.release(a));
    assert_eq!(device.cache_len(), 1);
    assert_eq!(device.live_allocations(), 1);

    device.reset();
    assert_eq!(device.cache_len(), 0);
    assert_eq!(device.live_allocations(), 0);
    assert_eq!(device.graph().len(), 0);
    assert_eq!(device.allocations(), 1);
    assert!(!device.owns(&stale));

    let b = cpu_cached(&mut device, &mut counter, 10).unwrap();
    assert_ne!(b.handle(), stale.handle());
    assert!(!device.owns(&stale));
}

#[test]
fn a_replayed_pass_allocates_nothing() {
    let mut device: CPU<u32> = CPU::new();
    let mut counter = Counter::new();
    let lens = [4usize, 9, 4, 1];

    let mut first = Vec::new();
    for len in lens {
        first.push(device.cached(&mut counter, len).unwrap());
    }
    assert_eq!(device.allocations(), 4);
    assert_eq!(device.graph().len(), 4);

    for _ in 0..3 {
        counter.reset_counter(0);
        for (i, len) in lens.into_iter().enumerate() {
            let again = device.cached(&mut counter, len).unwrap();
            assert_eq!(again.handle(), first[i].handle());
            assert_eq!(again.node(), first[i].node());
            assert_eq!(again.ident(), first[i].ident());
            assert!(!device.release(again));
        }
        assert_eq!(device.allocations(), 4);
        assert_eq!(device.graph().len(), 4);
        assert_eq!(device.cache_len(), 4);
    }
}

#[test]
fn a_hit_skips_the_graph() {
    let mut device: CPU<i32> = CPU::new();
    let ident = Ident { count: 3, len: 2 };
    let a = device.get_cached(ident, Some(Deps::Leaf)).unwrap();
    assert_eq!(a.node(), Some(0));
    assert_eq!(device.graph().len(), 1);

    let b = device.get_cached(ident, Some(Deps::Unary(0))).unwrap();
    assert_eq!(b.node(), Some(0));
    assert_eq!(device.graph().len(), 1);
    assert_eq!(b.handle(), a.handle());
}

#[test]
fn a_miss_records_its_dependencies() {
    let mut device: CPU<i32> = CPU::new();
    let x = device.with_slice(&[1, 2]).unwrap();
    let y = device.with_slice(&[3, 4]).unwrap();
    let out = device
        .get_cached(Ident { count: 0, len: 2 }, Some(Deps::Binary(0, 1)))
        .unwrap();
    assert_eq!(out.node(), Some(2));
    let node = device.graph().node(2).unwrap();
    assert_eq!(node.deps, Deps::Binary(0, 1));
    assert_eq!(node.len, 2);
    assert_eq!(node.idx, 2);
    assert_eq!(x.node(), Some(0));
    assert_eq!(y.node(), Some(1));

    let plain = device.get_cached(Ident { count: 1, len: 2 }, None).unwrap();
    assert_eq!(plain.node(), None);
    assert_eq!(device.graph().len(), 3);
}

#[test]
fn a_changed_shape_replaces_the_allocation() {
    let mut device: CPU<i32> = CPU::new();
    let mut counter = Counter::new();

    let old = device.cached(&mut counter, 3).unwrap();
    device.write(&old, &[1, 2, 3]);
    assert_eq!(device.info(&old).map(|i| i.refs), Some(2));

    counter.reset_counter(0);
    let new = device.cached(&mut counter, 5).unwrap();
    assert_ne!(new.handle(), old.handle());
    assert_eq!(new.len(), 5);
    assert_eq!(device.read(&new), [0; 5]);
    assert_eq!(device.allocations(), 2);
    assert_eq!(device.cache_len(), 1);
    assert_eq!(device.cache().entry(0).map(|e| e.handle), Some(new.handle()));
    assert!(!device.cache().contains_handle(old.handle()));

    assert_eq!(device.read(&old), [1, 2, 3]);
    assert_eq!(device.info(&old).map(|i| i.refs), Some(1));
    assert_eq!(device.live_allocations(), 2);

    assert!(device.release(old));
    assert_eq!(device.live_allocations(), 1);

    counter.reset_counter(0);
    let again = device.cached(&mut counter, 5).unwrap();
    assert_eq!(again.handle(), new.handle());
}

#[test]
fn a_changed_shape_frees_what_nobody_holds() {
    let mut device: CPU<i32> = CPU::new();
    let mut counter = Counter::new();

    let old = device.cached(&mut counter, 3).unwrap();
    assert!(!device.release(old));
    assert_eq!(device.live_allocations(), 1);

    counter.reset_counter(0);
    let new = device.cached(&mut counter, 4).unwrap();
    assert_eq!(device.live_allocations(), 1);
    assert_eq!(device.allocations(), 2);
    assert_eq!(device.info(&new).map(|i| i.refs), Some(2));
}

#[test]
fn dropping_a_cached_buffer_keeps_the_allocation() {
    let mut device: CPU<i32> = CPU::new();
    let mut counter = Counter::new();
    let a = device.cached(&mut counter, 2).unwrap();
    device.write(&a, &[8, 9]);
    assert!(device.releasable(&a));

    assert!(!device.release(a));
    assert_eq!(device.live_allocations(), 1);

    counter.reset_counter(0);
    let b = device.cached(&mut counter, 2).unwrap();
    assert_eq!(device.read(&b), [8, 9]);
    assert_eq!(device.info(&b).map(|i| i.refs), Some(2));
}

#[test]
fn the_hold_of_the_cache_cannot_be_given_up_by_a_buffer() {
    let mut device: CPU<i32> = CPU::new();
    let mut counter = Counter::new();
    let a = device.cached(&mut counter, 2).unwrap();
    let forged: Buffer<i32> = Buffer::from_parts(*a.ptr(), a.ident(), a.node());
    assert!(!device.release(a));
    assert!(device.owns(&forged));
    assert!(!device.releasable(&forged));
}

#[test]
fn zero_length_is_refused_by_the_cache() {
    let mut device: CPU<i32> = CPU::new();
    let mut counter = Counter::new();
    assert_eq!(device.cached(&mut counter, 0).err(), Some(DeviceError::InvalidLength));
    assert_eq!(cpu_cached(&mut device, &mut counter, 0).err(), Some(DeviceError::InvalidLength));
    assert_eq!(
        device.get_cached(Ident { count: 5, len: 0 }, None).err(),
        Some(DeviceError::InvalidLength)
    );
    assert_eq!(counter.get_count(), 0);
    assert_eq!(device.cache_len(), 0);
    assert_eq!(device.allocations(), 0);
    assert!(!device.will_grant(Ident { count: 0, len: 0 }));
    assert!(device.will_grant(Ident { count: 0, len: 1 }));
}

#[test]
fn cache_get_on_host_memory() {
    let mut mem: HostMemory<i32> = HostMemory::new();
    let mut graph = Graph::new();
    let mut cache = Cache::new();
    let ident = Ident { count: 0, len: 3 };

    assert_eq!(cache.lookup(ident), None);
    let entry = cache.get(&mut mem, &mut graph, ident, Some(Deps::Leaf)).unwrap();
    assert_eq!(entry.len, 3);
    assert_eq!(entry.node, Some(0));
    assert_eq!(mem.info(entry.handle).map(|i| (i.len, i.refs)), Some((3, 2)));
    assert_eq!(cache.lookup(ident), Some(entry));
    assert_eq!(cache.lookup(Ident { count: 0, len: 4 }), None);
    assert_eq!(cache.entry(0), Some(entry));
    assert!(cache.contains_handle(entry.handle));
    assert_eq!(cache.len(), 1);

    let hit = cache.get(&mut mem, &mut graph, ident, Some(Deps::Leaf)).unwrap();
    assert_eq!(hit, entry);
    assert_eq!(mem.info(entry.handle).map(|i| i.refs), Some(3));
    assert_eq!(mem.made_count(), 1);
    assert_eq!(graph.len(), 1);

    assert_eq!(
        cache.get(&mut mem, &mut graph, Ident { count: 1, len: 0 }, None).err(),
        Some(DeviceError::InvalidLength)
    );
}

#[test]
fn cache_insert_and_remove() {
    let mut cache = Cache::default();
    assert!(cache.is_empty());
    assert_eq!(cache.insert(Ident { count: 2, len: 5 }, 40, None), None);
    let first = cache.entry(2).unwrap();
    assert_eq!((first.len, first.handle, first.node), (5, 40, None));

    let evicted = cache.insert(Ident { count: 2, len: 6 }, 41, Some(1));
    assert_eq!(evicted, Some(first));
    assert!(!cache.contains_handle(40));
    assert!(cache.contains_handle(41));
    assert_eq!(cache.len(), 1);

    assert_eq!(cache.remove(3), None);
    let removed = cache.remove(2).unwrap();
    assert_eq!(removed.handle, 41);
    assert!(cache.is_empty());
    assert!(!cache.contains_handle(41));
}

#[test]
fn host_memory_counts_its_holders() {
    let mut mem: HostMemory<u16> = HostMemory::new();
    assert_eq!(mem.allocate(0), Err(DeviceError::InvalidLength));
    assert_eq!(mem.allocate_from_slice(&[]), Err(DeviceError::InvalidLength));
    assert_eq!(mem.allocate_from_vec(Vec::new()), Err(DeviceError::InvalidLength));
    assert!(mem.room(1));

    let a = mem.allocate(2).unwrap();
    let b = mem.allocate_from_slice(&[7, 8, 9]).unwrap();
    let c = mem.allocate_from_vec(vec![1]).unwrap();
    assert!(a != b && b != c && a != c);
    assert_eq!(mem.read(a), [0, 0]);
    assert_eq!(mem.read(b), [7, 8, 9]);
    assert_eq!(mem.read_to_vec(c), vec![1]);
    assert_eq!(mem.made_count(), 3);
    assert_eq!(mem.live_count(), 3);

    assert!(mem.retain(b));
    assert_eq!(mem.info(b).map(|i| (i.len, i.refs)), Some((3, 2)));
    assert!(!mem.release(b));
    assert_eq!(mem.info(b).map(|i| i.refs), Some(1));
    assert!(mem.release(b));
    assert_eq!(mem.info(b), None);
    assert_eq!(mem.live_count(), 2);
    assert_eq!(mem.made_count(), 3);

    mem.write(a, &[5, 6]);
    assert_eq!(mem.read(a), [5, 6]);
    mem.fill(a, 9);
    assert_eq!(mem.read(a), [9, 9]);
    mem.copy_within(a, 0, c, 0, 1);
    assert_eq!(mem.read(c), [9]);
}

#[test]
fn a_full_device_refuses_with_allocation_error() {
    let mut device: CPU<i32> = CPU::with_limit(1);
    let mut counter = Counter::new();
    let a = device.buffer(2).unwrap();
    assert!(!device.will_grant(Ident { count: 0, len: 2 }));

    assert_eq!(device.buffer(2).err(), Some(DeviceError::AllocationError));
    assert_eq!(device.with_slice(&[1]).err(), Some(DeviceError::AllocationError));
    assert_eq!(device.alloc_with_vec(vec![1]).err(), Some(DeviceError::AllocationError));
    assert_eq!(custos::CloneBuf::clone_buf(&mut device, &a).err(), Some(DeviceError::AllocationError));
    assert_eq!(device.cached(&mut counter, 2).err(), Some(DeviceError::AllocationError));
    assert_eq!(counter.get_count(), 0);
    assert_eq!(device.allocations(), 1);
    assert_eq!(device.live_allocations(), 1);
    assert_eq!(device.graph().len(), 1);
    assert_eq!(device.cache_len(), 0);

    assert!(device.release(a));
    let b = device.cached(&mut counter, 2).unwrap();
    assert_eq!(b.len(), 2);
    assert_eq!(counter.get_count(), 1);
}

#[test]
fn a_refused_change_of_shape_keeps_the_old_allocation() {
    let mut device: CPU<i32> = CPU::with_limit(1);
    let mut counter = Counter::new();
    let old = device.cached(&mut counter, 3).unwrap();
    device.write(&old, &[1, 2, 3]);

    counter.reset_counter(0);
    assert_eq!(device.cached(&mut counter, 5).err(), Some(DeviceError::AllocationError));
    assert_eq!(counter.get_count(), 0);
    assert_eq!(device.cache().entry(0).map(|e| (e.handle, e.len)), Some((old.handle(), 3)));
    assert_eq!(device.read(&old), [1, 2, 3]);

    let again = device.cached(&mut counter, 3).unwrap();
    assert_eq!(again.handle(), old.handle());
}

#[test]
fn a_full_host_memory_refuses() {
    let mut mem: HostMemory<u8> = HostMemory::with_limit(2);
    let a = mem.allocate(1).unwrap();
    let _b = mem.allocate(1).unwrap();
    assert!(!mem.room(1));
    assert_eq!(mem.allocate(1), Err(DeviceError::AllocationError));
    assert_eq!(mem.allocate(0), Err(DeviceError::InvalidLength));
    assert!(mem.release(a));
    assert!(mem.room(1));
    assert!(mem.allocate(1).is_ok());
}

#[test]
fn a_replayed_call_allocates_nothing_after_any_number_of_repeated_calls() {
    let lens = [3usize, 1, 7, 2, 5];
    for j in 0..lens.len() {
        let mut device: CPU<i32> = CPU::new();
        let mut counter = Counter::starting_at(40);
        let mut first = Vec::new();
        for len in lens {
            first.push(device.cached(&mut counter, len).unwrap());
        }
        let made = device.allocations();
        let slots = device.cache_len();

        counter.set_count(40);
        for i in 0..j {
            let again = device.cached(&mut counter, lens[i]).unwrap();
            assert_eq!(again.handle(), first[i].handle());
        }
        let next = device.cached(&mut counter, lens[j]).unwrap();
        assert_eq!(next.handle(), first[j].handle());
        assert_eq!(device.allocations(), made);
        assert_eq!(device.cache_len(), slots);
        assert_eq!(counter.get_count(), 40 + j as u64 + 1);
    }
}

#[test]
fn data_from_outside_gets_an_identity() {
    let mut device: CPU<i32> = CPU::new();
    let mut counter = Counter::starting_at(3);
    let buf = device.cached_with(&mut counter, &[4, 5, 6]).unwrap();
    assert_eq!(buf.ident(), Some(Ident { count: 3, len: 3 }));
    assert_eq!(buf.flag(), AllocFlag::Cache);
    assert_eq!(buf.node(), Some(0));
    assert_eq!(device.read(&buf), [4, 5, 6]);
    assert_eq!(counter.get_count(), 4);
    assert_eq!(device.graph().node(0).map(|n| n.deps), Some(Deps::Leaf));

    assert_eq!(device.cached_with(&mut counter, &[]).err(), Some(DeviceError::InvalidLength));
    assert_eq!(counter.get_count(), 4);

    counter.reset_counter(3);
    let again = device.cached_with(&mut counter, &[7, 8, 9]).unwrap();
    assert_eq!(again.handle(), buf.handle());
    assert_eq!(device.read(&buf), [7, 8, 9]);
    assert_eq!(device.allocations(), 1);
}
