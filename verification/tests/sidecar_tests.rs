use photo_digitizer::npy::{npy_hull_layout, read_hull_layout, HullLayout, NpyDtype, NpyError};
use photo_digitizer::phantom::{
    done_outcome, models_marker, nested_sidecar_dir, probe, probe_sidecar, sidecar_event, startup_step, status_out,
    upscale_step, venv_python, SidecarCheck, SidecarEvent, Wake, WorkerAction, READY_TIMEOUT_SECS,
};

#[test]
fn probe_reports_what_is_missing() {
    let s = probe(None);
    assert_eq!((s.available, s.models_ready, s.detail.as_str()), (false, false, "sidecar not found (sidecar/phantom)"));
    let s = probe(Some(SidecarCheck { python_present: false, models_ready: true }));
    assert_eq!(
        (s.available, s.models_ready, s.detail.as_str()),
        (false, true, "sidecar venv missing — run `uv sync` in sidecar/phantom")
    );
    let s = probe(Some(SidecarCheck { python_present: true, models_ready: false }));
    assert_eq!(
        (s.available, s.models_ready, s.detail.as_str()),
        (false, false, "models missing — run download_models.sh in sidecar/phantom")
    );
    let s = probe(Some(SidecarCheck { python_present: true, models_ready: true }));
    assert_eq!((s.available, s.models_ready, s.detail.as_str()), (true, true, ""));
    let o = status_out(&s);
    assert_eq!((o.available, o.models_ready, o.detail.as_str()), (true, true, ""));
}

#[test]
fn sidecar_layout_paths() {
    assert_eq!(nested_sidecar_dir("/app"), "/app/sidecar/phantom");
    assert_eq!(probe_sidecar("/app", true, true), Some("/app".to_string()));
    assert_eq!(probe_sidecar("/app", false, true), Some("/app/sidecar/phantom".to_string()));
    assert_eq!(probe_sidecar("/app", false, false), None);
    assert_eq!(venv_python("/s"), "/s/.venv/bin/python");
    assert_eq!(models_marker("/s/"), "/s/models/.ready");
}

#[test]
fn sidecar_events_from_json_lines() {
    assert!(matches!(sidecar_event(r#"{"event":"ready"}"#), Some(SidecarEvent::Ready)));
    match sidecar_event(r#"{"event":"progress","pct":0.5,"msg":"step 3/15"}"#) {
        Some(SidecarEvent::Progress { msg }) => assert_eq!(msg, "step 3/15"),
        _ => panic!("expected progress"),
    }
    match sidecar_event(r#"{"event":"progress"}"#) {
        Some(SidecarEvent::Progress { msg }) => assert_eq!(msg, ""),
        _ => panic!("expected progress"),
    }
    match sidecar_event(r#"{"id":"t","event":"done","output":"/tmp/out.png"}"#) {
        Some(SidecarEvent::Done { output }) => assert_eq!(output, "/tmp/out.png"),
        _ => panic!("expected done"),
    }
    match sidecar_event(r#"{"event":"error"}"#) {
        Some(SidecarEvent::Error { msg }) => assert_eq!(msg, "unknown"),
        _ => panic!("expected error"),
    }
    match sidecar_event(r#"{"event":"fatal","msg":"no weights"}"#) {
        Some(SidecarEvent::Fatal { msg }) => assert_eq!(msg, "no weights"),
        _ => panic!("expected fatal"),
    }
    match sidecar_event(r#"{"event":"error","msg":7}"#) {
        Some(SidecarEvent::Error { msg }) => assert_eq!(msg, "unknown"),
        _ => panic!("expected error"),
    }
    assert!(sidecar_event(r#"{"event":"hello"}"#).is_none());
    assert!(sidecar_event(r#"{"event":5}"#).is_none());
    assert!(sidecar_event(r#"{"msg":"x"}"#).is_none());
    assert!(sidecar_event("loading weights...").is_none());
    assert!(sidecar_event(r#"["event","ready"]"#).is_none());
}

fn fail_of(a: WorkerAction) -> (bool, bool, String) {
    match a {
        WorkerAction::Fail { kill, dead, message } => (kill, dead, message),
        _ => panic!("expected a failure"),
    }
}

#[test]
fn startup_decisions() {
    assert_eq!(READY_TIMEOUT_SECS, 240);
    assert_eq!(fail_of(startup_step(Wake::Expired)), (true, true, "Phantom sidecar did not become ready in 240s".to_string()));
    assert!(matches!(startup_step(Wake::Event(SidecarEvent::Ready)), WorkerAction::Ready));
    assert!(matches!(startup_step(Wake::Timeout), WorkerAction::Wait));
    assert!(matches!(startup_step(Wake::Event(SidecarEvent::Progress { msg: "x".to_string() })), WorkerAction::Wait));
    assert_eq!(
        fail_of(startup_step(Wake::Event(SidecarEvent::Fatal { msg: "oom".to_string() }))),
        (false, true, "Phantom sidecar failed to load: oom".to_string())
    );
    assert_eq!(fail_of(startup_step(Wake::Event(SidecarEvent::Eof))), (false, true, "Phantom sidecar exited during startup".to_string()));
    assert_eq!(fail_of(startup_step(Wake::Disconnected)), (false, true, "Phantom sidecar reader stopped during startup".to_string()));
}

#[test]
fn upscale_decisions() {
    assert_eq!(fail_of(upscale_step(true, Wake::Timeout)), (true, true, "cancelled".to_string()));
    assert_eq!(
        fail_of(upscale_step(true, Wake::Event(SidecarEvent::Done { output: "/x".to_string() }))),
        (true, true, "cancelled".to_string())
    );
    match upscale_step(false, Wake::Event(SidecarEvent::Done { output: "/x.png".to_string() })) {
        WorkerAction::CheckOutput { path } => assert_eq!(path, "/x.png"),
        _ => panic!("expected an output check"),
    }
    match upscale_step(false, Wake::Event(SidecarEvent::Progress { msg: "denoise".to_string() })) {
        WorkerAction::Report { msg } => assert_eq!(msg, "denoise"),
        _ => panic!("expected a report"),
    }
    assert_eq!(
        fail_of(upscale_step(false, Wake::Event(SidecarEvent::Error { msg: "boom".to_string() }))),
        (false, false, "Phantom: boom".to_string())
    );
    assert_eq!(
        fail_of(upscale_step(false, Wake::Event(SidecarEvent::Fatal { msg: "gpu".to_string() }))),
        (false, true, "Phantom sidecar fatal: gpu".to_string())
    );
    assert_eq!(fail_of(upscale_step(false, Wake::Event(SidecarEvent::Eof))), (false, true, "Phantom sidecar exited unexpectedly".to_string()));
    assert_eq!(fail_of(upscale_step(false, Wake::Disconnected)), (false, true, "Phantom sidecar stopped responding".to_string()));
    assert!(matches!(upscale_step(false, Wake::Timeout), WorkerAction::Wait));
    assert!(matches!(upscale_step(false, Wake::Event(SidecarEvent::Ready)), WorkerAction::Wait));
    assert_eq!(done_outcome("/x.png", true), Ok(()));
    assert_eq!(done_outcome("/x.png", false), Err("Phantom sidecar reported done but /x.png is missing".to_string()));
}

fn npy_v1(header: &str, data_len: usize) -> Vec<u8> {
    let mut b = vec![0x93u8, b'N', b'U', b'M', b'P', b'Y', 1, 0];
    let len = header.len() as u16;
    b.extend_from_slice(&len.to_le_bytes());
    b.extend_from_slice(header.as_bytes());
    b.extend(std::iter::repeat(0u8).take(data_len));
    b
}

fn npy_v2(header: &str) -> Vec<u8> {
    let mut b = vec![0x93u8, b'N', b'U', b'M', b'P', b'Y', 2, 0];
    b.extend_from_slice(&(header.len() as u32).to_le_bytes());
    b.extend_from_slice(header.as_bytes());
    b
}

fn layout_of(r: Result<HullLayout, NpyError>) -> (NpyDtype, bool, usize) {
    match r {
        Ok(l) => (l.dtype, l.transposed, l.data_offset),
        Err(_) => panic!("expected a layout"),
    }
}

#[test]
fn hull_layout_of_well_formed_files() {
    let h = "{'descr': '<f8', 'fortran_order': False, 'shape': (313, 2), }";
    let bytes = npy_v1(h, 313 * 2 * 8);
    let (dt, tr, off) = layout_of(npy_hull_layout(&bytes));
    assert!(matches!(dt, NpyDtype::F8));
    assert!(!tr);
    assert_eq!(off, 10 + h.len());
    let h2 = "{'descr': '|i8', 'fortran_order': False, 'shape': ( 2 ,313 ), }";
    let (dt, tr, off) = layout_of(npy_hull_layout(&npy_v1(h2, 0)));
    assert!(matches!(dt, NpyDtype::I8));
    assert!(tr);
    assert_eq!(off, 10 + h2.len());
    let h3 = "{'descr': '<f4', 'fortran_order': False, 'shape': (313, 2), }";
    let (dt, _, off) = layout_of(read_hull_layout(&npy_v2(h3)).unwrap());
    assert!(matches!(dt, NpyDtype::F4));
    assert_eq!(off, 12 + h3.len());
}

#[test]
fn hull_layout_errors() {
    assert!(matches!(npy_hull_layout(b"PK\x03\x04 not numpy"), Err(NpyError::NotNumpy)));
    assert!(matches!(npy_hull_layout(b""), Err(NpyError::NotNumpy)));
    match npy_hull_layout(&npy_v1("{'descr': '<i4', 'shape': (313, 2), }", 0)) {
        Err(NpyError::UnsupportedDtype(d)) => assert_eq!(d, "<i4"),
        _ => panic!("expected an unsupported type"),
    }
    match npy_hull_layout(&npy_v1("{'descr': '<f8', 'shape': (313, 3), }", 0)) {
        Err(NpyError::UnexpectedShape(d)) => assert_eq!(d, vec![313, 3]),
        _ => panic!("expected an unexpected shape"),
    }
    match npy_hull_layout(&npy_v1("{'descr': '<f8', 'shape': (313,), }", 0)) {
        Err(NpyError::UnexpectedShape(d)) => assert_eq!(d, vec![313]),
        _ => panic!("expected an unexpected shape"),
    }
    assert!(matches!(npy_hull_layout(&npy_v1("{'descr'}", 0)), Err(NpyError::DescrMissing)));
    assert!(matches!(npy_hull_layout(&npy_v1("{'descr': '<f8', 'dims': (313, 2)}", 0)), Err(NpyError::ShapeKeyMissing)));
    assert!(matches!(npy_hull_layout(&npy_v1("{'descr': '<f8', 'shape': 313, 2)}", 0)), Err(NpyError::ShapeOpenMissing)));
    assert!(matches!(npy_hull_layout(&npy_v1("{'descr': '<f8', 'shape': (313, 2}", 0)), Err(NpyError::ShapeCloseMissing)));
}

#[test]
fn hull_layout_refuses_truncated_headers() {
    let mut b = npy_v1("{'descr': '<f8', 'shape': (313, 2), }", 0);
    b.truncate(20);
    assert!(read_hull_layout(&b).is_none());
    assert!(read_hull_layout(&[0x93, b'N', b'U', b'M', b'P', b'Y']).is_none());
    assert!(read_hull_layout(&npy_v1("{'descr': '<f8', 'shape': )(}", 0)).is_none());
    assert!(matches!(read_hull_layout(b"not numpy"), Some(Err(NpyError::NotNumpy))));
}
