use hash_miner::gpu::{
    make_uniforms, Adapter, AdapterProbe, Backend, DeviceKind, GpuError, GpuMiner, ResultBuffer,
    ITERATIONS_PER_THREAD, MAX_BATCH_SIZE, MAX_WORKGROUPS_PER_DISPATCH, NONCES_PER_WORKGROUP,
    RESULT_BYTES, UNIFORMS_BYTES, WORKGROUP_SIZE,
};

#[test]
fn batch_sizes_fit_together() {
    assert_eq!(NONCES_PER_WORKGROUP, (WORKGROUP_SIZE * ITERATIONS_PER_THREAD) as u64);
    assert_eq!(MAX_BATCH_SIZE, MAX_WORKGROUPS_PER_DISPATCH as u64 * NONCES_PER_WORKGROUP);
}

#[test]
fn batches_are_whole_workgroups() {
    assert_eq!(GpuMiner::normalize_batch(0), (1024, 1));
    assert_eq!(GpuMiner::normalize_batch(1), (1024, 1));
    assert_eq!(GpuMiner::normalize_batch(1024), (1024, 1));
    assert_eq!(GpuMiner::normalize_batch(1025), (2048, 2));
    assert_eq!(GpuMiner::normalize_batch(1 << 20), (1 << 20, 1024));
    assert_eq!(GpuMiner::normalize_batch(MAX_BATCH_SIZE), (MAX_BATCH_SIZE, 65535));
    assert_eq!(GpuMiner::normalize_batch(MAX_BATCH_SIZE + 1), (MAX_BATCH_SIZE, 65535));
    assert_eq!(GpuMiner::normalize_batch(u64::MAX), (MAX_BATCH_SIZE, 65535));
}

#[test]
fn a_normalized_batch_is_its_own() {
    for hint in [0u64, 5, 1000, 1025, 4_000_001, MAX_BATCH_SIZE, u64::MAX] {
        let (batch, _) = GpuMiner::normalize_batch(hint);
        assert_eq!(GpuMiner::normalize_batch(batch).0, batch);
    }
}

fn adapter(name: &str, vendor: u32, backend: Backend) -> Adapter {
    Adapter { name: name.to_string(), vendor, backend }
}

#[test]
fn fingerprints_are_name_vendor_and_backend() {
    let m = GpuMiner::from_adapter(adapter("Apple M1", 4203, Backend::Metal));
    assert_eq!(m.fingerprint, "Apple M1|4203|Metal");
    assert_eq!(m.adapter_name, "Apple M1");
    assert_eq!(m.backend, "Metal");
}

#[test]
fn fingerprints_of_other_devices_differ() {
    let base = GpuMiner::from_adapter(adapter("a", 1, Backend::Vulkan)).fingerprint;
    assert_ne!(base, GpuMiner::from_adapter(adapter("b", 1, Backend::Vulkan)).fingerprint);
    assert_ne!(base, GpuMiner::from_adapter(adapter("a", 2, Backend::Vulkan)).fingerprint);
    assert_ne!(base, GpuMiner::from_adapter(adapter("a", 1, Backend::Dx12)).fingerprint);
    assert_eq!(base, GpuMiner::from_adapter(adapter("a", 1, Backend::Vulkan)).fingerprint);
    assert_ne!(
        GpuMiner::from_adapter(adapter("a|1", 2, Backend::Vulkan)).fingerprint,
        GpuMiner::from_adapter(adapter("a", 1, Backend::Vulkan)).fingerprint
    );
}

#[test]
fn backends_have_their_names() {
    let names: Vec<String> = [
        Backend::Empty,
        Backend::Vulkan,
        Backend::Metal,
        Backend::Dx12,
        Backend::Gl,
        Backend::BrowserWebGpu,
    ]
    .iter()
    .map(|b| b.name())
    .collect();
    assert_eq!(names, vec!["Empty", "Vulkan", "Metal", "Dx12", "Gl", "BrowserWebGpu"]);
}

#[test]
fn a_missing_adapter_is_an_error() {
    let e = GpuMiner::new(None).err().unwrap();
    assert!(matches!(e, GpuError::NoAdapter));
    assert_eq!(e.message(), "找不到可用 GPU adapter");
    assert_eq!(GpuMiner::new(Some(adapter("x", 0, Backend::Metal))).ok().unwrap().fingerprint, "x|0|Metal");
}

#[test]
fn only_real_devices_that_open_are_chosen() {
    let probe = |kind, opened| AdapterProbe { kind, opened };
    let probes = vec![
        probe(DeviceKind::Cpu, true),
        probe(DeviceKind::DiscreteGpu, true),
        probe(DeviceKind::VirtualGpu, true),
        probe(DeviceKind::IntegratedGpu, false),
        probe(DeviceKind::Other, true),
        probe(DeviceKind::IntegratedGpu, true),
    ];
    assert_eq!(GpuMiner::enumerate_all(&probes).ok().unwrap(), vec![1, 5]);
    let e = GpuMiner::enumerate_all(&vec![probe(DeviceKind::Cpu, true)]).err().unwrap();
    assert!(matches!(e, GpuError::NoGpu));
    assert_eq!(e.message(), "找不到任何可用 GPU");
    assert!(GpuMiner::enumerate_all(&vec![]).is_err());
    assert!(!GpuMiner::is_minable(DeviceKind::Other));
}

fn counted() -> [u8; 32] {
    let mut b = [0u8; 32];
    for i in 0..32 {
        b[i] = i as u8;
    }
    b
}

#[test]
fn uniforms_hold_what_the_shader_reads() {
    let u = make_uniforms(&counted(), &counted(), 0x0102_0304_0506_0708);
    assert_eq!(u.challenge[0], 0x03020100);
    assert_eq!(u.challenge[7], 0x1f1e1d1c);
    assert_eq!(u.difficulty[0], 0x00010203);
    assert_eq!(u.difficulty[7], 0x1c1d1e1f);
    assert_eq!(u.nonce_base_hi, 0x01020304);
    assert_eq!(u.nonce_base_lo, 0x05060708);
    assert_eq!((u.pad0, u.pad1), (0, 0));
}

#[test]
fn uniforms_are_written_word_for_word() {
    let u = make_uniforms(&counted(), &[0xff; 32], 5);
    let bytes = u.to_bytes();
    assert_eq!(bytes.len(), UNIFORMS_BYTES);
    let words = u.to_words();
    for i in 0..20 {
        let b = [bytes[4 * i], bytes[4 * i + 1], bytes[4 * i + 2], bytes[4 * i + 3]];
        assert_eq!(u32::from_ne_bytes(b), words[i]);
    }
    assert_eq!(words[16], 5);
}

#[test]
fn different_inputs_give_different_uniforms() {
    let base = make_uniforms(&[1; 32], &[2; 32], 3).to_words();
    assert_ne!(base, make_uniforms(&[0; 32], &[2; 32], 3).to_words());
    assert_ne!(base, make_uniforms(&[1; 32], &[0; 32], 3).to_words());
    assert_ne!(base, make_uniforms(&[1; 32], &[2; 32], 3 << 32).to_words());
}

#[test]
fn result_buffers_survive_bytes() {
    let words = [1, 2, 3, 4, 5, 6, 7, 8, 9, 10, 11, 12];
    let r = ResultBuffer::from_words(&words);
    let bytes = r.to_bytes();
    assert_eq!(bytes.len(), RESULT_BYTES);
    assert_eq!(ResultBuffer::from_bytes(&bytes).to_words(), words);
    assert_eq!(bytes[..4], 1u32.to_ne_bytes());
}

#[test]
fn a_cleared_buffer_reports_nothing() {
    let r = ResultBuffer::cleared();
    assert_eq!(r.to_words(), [0; 12]);
    assert!(r.hit().is_none());
}

#[test]
fn a_found_nonce_is_read_from_its_halves() {
    let r = ResultBuffer::from_words(&[
        2, 0x05060708, 0x01020304, 0, 0x00010203, 0x04050607, 0x08090a0b, 0x0c0d0e0f, 0x10111213,
        0x14151617, 0x18191a1b, 0x1c1d1e1f,
    ]);
    let hit = r.hit().unwrap();
    assert_eq!(hit.nonce, 0x0102_0304_0506_0708);
    assert_eq!(hit.hash_be, counted());
}
