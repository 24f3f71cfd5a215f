use hash_miner::persist::{
    persist_profiles, persist_tuning, write_profiles, write_tuning, NoGpuSection, PersistError,
};
use hash_miner::profile::{GpuProfile, Profiles};

const SETTINGS: &str = "contract = \"0x1\"\n\n[gpu]\nbatch_size = 5\npipeline_depth = 1\n\
fingerprint = \"old\"\ntarget_batch_ms = 100.0\n\n[gpu.profiles.gone]\nbatch_size = 1\n\
pipeline_depth = 1\n\n[log]\nlevel = \"info\"\n";

fn profiles() -> Profiles {
    let mut p = Profiles::new();
    p.insert("Apple M1|4203|Metal".to_string(), GpuProfile { batch_size: 4194304, pipeline_depth: 2 });
    p.insert("b".to_string(), GpuProfile { batch_size: 1048576, pipeline_depth: 1 });
    p
}

fn read(text: &str) -> toml::Value {
    toml::from_str(text).unwrap()
}

fn at<'a>(v: &'a toml::Value, path: &[&str]) -> Option<&'a toml::Value> {
    let mut v = v;
    for key in path {
        v = v.get(*key)?;
    }
    Some(v)
}

#[test]
fn profiles_are_written_under_the_gpu_table() {
    let doc = read(&persist_profiles(SETTINGS, &profiles()).ok().unwrap());
    let m1 = at(&doc, &["gpu", "profiles", "Apple M1|4203|Metal"]).unwrap();
    assert_eq!(m1.get("batch_size").unwrap().as_integer(), Some(4194304));
    assert_eq!(m1.get("pipeline_depth").unwrap().as_integer(), Some(2));
    assert_eq!(m1.as_table().unwrap().len(), 2);
    let all = at(&doc, &["gpu", "profiles"]).unwrap().as_table().unwrap();
    assert_eq!(all.len(), 2);
    assert!(all.get("gone").is_none());
}

#[test]
fn profiles_replace_a_single_devices_result() {
    let doc = read(&persist_profiles(SETTINGS, &profiles()).ok().unwrap());
    assert!(at(&doc, &["gpu", "batch_size"]).is_none());
    assert!(at(&doc, &["gpu", "pipeline_depth"]).is_none());
    assert!(at(&doc, &["gpu", "fingerprint"]).is_none());
}

#[test]
fn other_settings_stay() {
    let doc = read(&persist_profiles(SETTINGS, &profiles()).ok().unwrap());
    assert_eq!(at(&doc, &["contract"]).unwrap().as_str(), Some("0x1"));
    assert_eq!(at(&doc, &["log", "level"]).unwrap().as_str(), Some("info"));
    assert_eq!(at(&doc, &["gpu", "target_batch_ms"]).unwrap().as_float(), Some(100.0));
    assert_eq!(doc.as_table().unwrap().len(), 3);
    assert_eq!(at(&doc, &["gpu"]).unwrap().as_table().unwrap().len(), 2);
}

#[test]
fn writing_profiles_again_changes_nothing() {
    let once = persist_profiles(SETTINGS, &profiles()).ok().unwrap();
    assert_eq!(persist_profiles(&once, &profiles()).ok().unwrap(), once);
}

#[test]
fn the_text_is_tomls_pretty_text() {
    assert_eq!(
        persist_profiles("[gpu]\n", &Profiles::new()).ok().unwrap(),
        "[gpu.profiles]\n"
    );
    let text = persist_tuning("[gpu]\n", 7, 3, "f|1|Metal").ok().unwrap();
    assert_eq!(text, "[gpu]\nbatch_size = 7\nfingerprint = \"f|1|Metal\"\npipeline_depth = 3\n");
}

#[test]
fn settings_without_a_gpu_table_are_refused() {
    for text in ["", "a = 1", "gpu = 5", "[gp]\n"] {
        assert!(matches!(
            persist_profiles(text, &profiles()).err().unwrap(),
            PersistError::NoGpuSection
        ));
        assert!(matches!(
            persist_tuning(text, 1, 1, "x").err().unwrap(),
            PersistError::NoGpuSection
        ));
    }
    assert_eq!(NoGpuSection.message(), "config.toml 缺少 [gpu] 段");
}

#[test]
fn settings_that_are_no_toml_are_refused() {
    for text in ["[gpu", "= 1", "a = "] {
        assert!(matches!(
            persist_profiles(text, &profiles()).err().unwrap(),
            PersistError::BadToml(_)
        ));
        assert!(matches!(persist_tuning(text, 1, 1, "x").err().unwrap(), PersistError::BadToml(_)));
    }
}

#[test]
fn a_single_devices_result_is_written() {
    let doc = read(&persist_tuning(SETTINGS, 4096, 4, "new|2|Vulkan").ok().unwrap());
    assert_eq!(at(&doc, &["gpu", "batch_size"]).unwrap().as_integer(), Some(4096));
    assert_eq!(at(&doc, &["gpu", "pipeline_depth"]).unwrap().as_integer(), Some(4));
    assert_eq!(at(&doc, &["gpu", "fingerprint"]).unwrap().as_str(), Some("new|2|Vulkan"));
    assert_eq!(at(&doc, &["gpu", "profiles", "gone", "batch_size"]).unwrap().as_integer(), Some(1));
    assert_eq!(at(&doc, &["gpu"]).unwrap().as_table().unwrap().len(), 5);
}

#[test]
fn documents_are_changed_in_place() {
    let mut doc = read(SETTINGS);
    let p = GpuProfile { batch_size: u64::MAX, pipeline_depth: 9 };
    assert!(write_tuning(&mut doc, &p, "z").is_ok());
    assert_eq!(at(&doc, &["gpu", "batch_size"]).unwrap().as_integer(), Some(-1));
    assert!(write_profiles(&mut doc, &Profiles::new()).is_ok());
    assert_eq!(at(&doc, &["gpu", "profiles"]).unwrap().as_table().unwrap().len(), 0);
    let mut other = read("a = 1");
    assert!(write_profiles(&mut other, &profiles()).is_err());
    assert_eq!(other, read("a = 1"));
}
