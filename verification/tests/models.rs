use whisper_lite::models::{
    is_installed, list, models_dir, path_for, registry, spec, GROUP_COMPRESSED, GROUP_ENGLISH,
    GROUP_GENERAL,
};

const HOME: &str = "/Users/me";

#[test]
fn registry_ids_are_unique() {
    let mut ids: Vec<_> = registry().iter().map(|m| m.id).collect();
    ids.sort_unstable();
    let count = ids.len();
    ids.dedup();
    assert_eq!(ids.len(), count, "duplicate model id in registry");
}

#[test]
fn default_model_exists_in_registry() {
    assert!(spec("base").is_some());
}

#[test]
fn unknown_model_has_no_path() {
    assert!(path_for(HOME, "does-not-exist").is_none());
    assert!(!is_installed("does-not-exist", None));
    assert!(!is_installed("does-not-exist", Some(u64::MAX)));
}

#[test]
fn ranks_are_on_the_meter_scale() {
    for m in registry() {
        assert!(
            (1..=5).contains(&m.speed_rank),
            "{} has speed_rank {}",
            m.id,
            m.speed_rank
        );
        assert!(
            (1..=5).contains(&m.accuracy_rank),
            "{} has accuracy_rank {}",
            m.id,
            m.accuracy_rank
        );
    }
}

#[test]
fn every_model_is_on_a_known_shelf() {
    for m in registry() {
        assert!(
            [GROUP_GENERAL, GROUP_ENGLISH, GROUP_COMPRESSED].contains(&m.group),
            "{} has an unknown group '{}'",
            m.id,
            m.group
        );
    }
}

#[test]
fn every_model_has_a_distinct_file() {
    let mut files: Vec<_> = registry().iter().map(|m| m.file).collect();
    files.sort_unstable();
    let count = files.len();
    files.dedup();
    assert_eq!(files.len(), count, "two models share a filename");
}

#[test]
fn there_are_fourteen_models() {
    let all = registry();
    assert_eq!(all.len(), 14);
    let m = spec("large-v3-turbo-q5_0").unwrap();
    assert_eq!(m.name, "Large v3 Turbo (compressed)");
    assert_eq!(m.file, "ggml-large-v3-turbo-q5_0.bin");
    assert_eq!(m.size_mb, 547);
    assert_eq!(m.group, GROUP_COMPRESSED);
    assert!(!m.measured);
    assert!(spec("Base").is_none());
}

#[test]
fn paths_lie_in_the_models_directory() {
    let dir = models_dir(HOME);
    assert_eq!(dir, "/Users/me/Library/Application Support/whisper-lite/models");
    assert_eq!(path_for(HOME, "tiny.en").unwrap(), format!("{dir}/ggml-tiny.en.bin"));
}

#[test]
fn a_model_is_installed_when_its_file_is_whole() {
    // Base is 141 megabytes; five percent may be missing.
    let bound: u64 = 141 * 1024 * 1024 * 95 / 100;
    assert!(is_installed("base", Some(bound + 1)));
    assert!(!is_installed("base", Some(bound)));
    assert!(!is_installed("base", Some(0)));
    assert!(!is_installed("base", None));
}

#[test]
fn the_picker_lists_every_model() {
    let mut lens: Vec<Option<u64>> = vec![None; 14];
    lens[1] = Some(147_951_465);
    lens[2] = Some(10);
    let rows = list("small", &lens);
    assert_eq!(rows.len(), 14);
    assert_eq!(rows[1].id, "base");
    assert_eq!(rows[1].note, "Good for short, clear dictation. The default.");
    assert!(rows[1].installed && !rows[1].active && rows[1].measured);
    assert!(!rows[2].installed && rows[2].active);
    assert_eq!(rows[5].speed, "~2.5s");
    assert_eq!(rows[5].accuracy, "Best");
    assert_eq!((rows[5].speed_rank, rows[5].accuracy_rank), (1, 5));
    assert_eq!(rows.iter().filter(|r| r.active).count(), 1);
}
