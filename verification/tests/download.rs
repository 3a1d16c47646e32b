use whisper_lite::download::{
    delete, delete_model, download, failure, Downloads, Progress, Transfer, TransferAction,
    TransferEvent,
};

const MB: usize = 1_048_576;

fn told(p: &Progress) -> (u64, u64, bool, bool) {
    (p.received_mb, p.total_mb, p.done, p.error.is_some())
}

#[test]
fn a_download_is_planned() {
    let p = download("/h", "tiny.en").unwrap();
    let dir = "/h/Library/Application Support/whisper-lite/models";
    assert_eq!(p.dir, dir);
    assert_eq!(p.dest, format!("{dir}/ggml-tiny.en.bin"));
    assert_eq!(p.partial, format!("{dir}/ggml-tiny.en.partial"));
    assert_eq!(
        p.url,
        "https://huggingface.co/ggerganov/whisper.cpp/resolve/main/ggml-tiny.en.bin"
    );
    assert_eq!(download("/h", "nope").unwrap_err(), "unknown model: nope");
}

#[test]
fn a_server_can_refuse() {
    let p = download("/h", "tiny").unwrap();
    let url = p.url.clone();
    let e = Transfer::answered(p, false, "404 Not Found", None).unwrap_err();
    assert_eq!(e, format!("{url} returned HTTP 404 Not Found"));
}

#[test]
fn progress_is_reported_per_megabyte() {
    let p = download("/h", "tiny").unwrap();
    let mut t = Transfer::answered(p, true, "200 OK", Some(3 * MB as u64 + 5)).unwrap();
    let mut seen: Vec<(u64, u64, bool, bool)> = Vec::new();
    for bytes in [MB / 2, MB / 2 - 1, 1, MB / 2, 2 * MB, 5] {
        assert!(matches!(t.next(TransferEvent::Polled { cancelled: false }), TransferAction::Read));
        match t.next(TransferEvent::Got { bytes }) {
            TransferAction::Write { report: Some(r) } => {
                assert_eq!(r.id, "tiny");
                seen.push(told(&r));
            }
            TransferAction::Write { report: None } => {}
            _ => panic!("a chunk is written"),
        }
    }
    assert_eq!(seen, vec![(1, 3, false, false), (3, 3, false, false)]);
    assert_eq!(t.received_bytes(), 3 * MB as u64 + MB as u64 / 2 + 5);
    match t.next(TransferEvent::Got { bytes: 0 }) {
        TransferAction::Finish { partial, dest, report } => {
            assert!(partial.ends_with("ggml-tiny.partial"));
            assert!(dest.ends_with("ggml-tiny.bin"));
            assert_eq!(told(&report), (3, 3, true, false));
        }
        _ => panic!("nothing more comes"),
    }
}

#[test]
fn a_cancelled_download_is_discarded() {
    let p = download("/h", "tiny").unwrap();
    let mut t = Transfer::answered(p, true, "200 OK", None).unwrap();
    match t.next(TransferEvent::Polled { cancelled: true }) {
        TransferAction::Discard { partial, error } => {
            assert!(partial.ends_with(".partial"));
            assert_eq!(error, "cancelled");
        }
        _ => panic!("it was cancelled"),
    }
}

#[test]
fn a_failed_download_is_reported() {
    let p = failure("tiny", "reading response: reset");
    assert_eq!(told(&p), (0, 0, false, true));
    assert_eq!(p.error.unwrap(), "reading response: reset");
}

#[test]
fn one_download_for_each_model() {
    let mut d = Downloads::new();
    assert!(d.begin("tiny"));
    assert!(!d.begin("tiny"));
    assert!(d.begin("base"));
    assert!(!d.cancelled("tiny"));
    d.cancel("tiny");
    d.cancel("small");
    assert!(d.cancelled("tiny") && !d.cancelled("base") && !d.cancelled("small"));
    d.end("tiny");
    d.end("small");
    assert!(!d.cancelled("tiny"));
    assert!(d.begin("tiny"));
    assert!(!d.cancelled("tiny"));
    assert!(!d.begin("base"));
}

#[test]
fn the_model_in_use_is_not_deleted() {
    assert_eq!(
        delete_model("/h", "base", "base").unwrap_err(),
        "That model is in use. Pick a different one first."
    );
    assert_eq!(
        delete_model("/h", "base", "tiny").unwrap(),
        "/h/Library/Application Support/whisper-lite/models/ggml-tiny.bin"
    );
    assert_eq!(delete_model("/h", "base", "x").unwrap_err(), "unknown model: x");
    assert_eq!(delete("/h", "x").unwrap_err(), "unknown model: x");
}
