use ssimulacra2_vulkan::context::{find_memory_type, name_bytes, pick_device, DeviceCandidate};

fn cand(t: i32, flags: &[u32]) -> DeviceCandidate {
    DeviceCandidate { device_type: t, queue_flags: flags.to_vec() }
}

#[test]
fn discrete_gpu_is_preferred_over_integrated_and_cpu() {
    // CPU (4), integrated (1), discrete (2); graphics=1, compute=2, transfer=4
    let devs = vec![cand(4, &[2]), cand(1, &[1, 3]), cand(2, &[4, 1, 2, 2])];
    assert_eq!(pick_device(&devs), Some((2, 2)));
}

#[test]
fn first_device_wins_a_tie_and_devices_without_compute_are_skipped() {
    let devs = vec![cand(1, &[1]), cand(1, &[6]), cand(1, &[2])];
    assert_eq!(pick_device(&devs), Some((1, 0)));
    assert_eq!(pick_device(&vec![cand(2, &[1, 4])]), None);
    assert_eq!(pick_device(&vec![]), None);
    let others = vec![cand(0, &[2]), cand(3, &[2])];
    assert_eq!(pick_device(&others), Some((0, 0)));
}

#[test]
fn memory_type_must_be_allowed_and_have_every_needed_flag() {
    // DEVICE_LOCAL = 1, HOST_VISIBLE = 2, HOST_COHERENT = 4
    let types = [1u32, 6, 7, 2];
    assert_eq!(find_memory_type(0b1111, 6, &types), Some(1));
    assert_eq!(find_memory_type(0b1100, 6, &types), Some(2));
    assert_eq!(find_memory_type(0b1001, 6, &types), None);
    assert_eq!(find_memory_type(u32::MAX, 1, &types), Some(0));
    assert_eq!(find_memory_type(u32::MAX, 8, &types), None);
    assert_eq!(find_memory_type(u32::MAX, 0, &[]), None);
}

#[test]
fn device_name_stops_at_the_first_nul() {
    assert_eq!(name_bytes(b"llvmpipe\0junk\0"), b"llvmpipe".to_vec());
    assert_eq!(name_bytes(b"\0abc"), Vec::<u8>::new());
    assert_eq!(name_bytes(b"full"), b"full".to_vec());
    assert_eq!(name_bytes(b""), Vec::<u8>::new());
}
