use zenith::engine::{PluginOutcome, ZenithEngine};
use zenith::error::{PluginLoadPhase, ZenithError};
use zenith::event::{ForeignArray, ForeignSchema, RecordBatch};
use zenith::wasm_host::WasmHost;

const EVEN_FILTER: &str =
    "(module (func (export \"on_event\") (param i32 i64) (result i32) local.get 1 i64.const 2 i64.rem_u i64.eqz))";

const PASSIVE: &str = "(module)";

fn batch() -> RecordBatch {
    RecordBatch {
        array: ForeignArray { n_children: 1, n_rows: 1, n_bytes: 16, released: false },
        schema: ForeignSchema { struct_root: true, n_fields: 1, released: false },
    }
}

#[test]
fn s2_plugin_drop() {
    let mut engine = ZenithEngine::new(8).unwrap();
    let id = engine.load_plugin(EVEN_FILTER.as_bytes()).unwrap();
    assert_eq!(id, 0);
    assert_eq!(engine.plugin_count(), 1);

    let mut seq: u64 = 0;
    while seq < 4 {
        let (status, _) = engine.publish(batch(), 1, seq);
        assert_eq!(status, 0);
        seq += 1;
    }

    let mut accepted = 0;
    let mut processed = 0;
    while let Some(report) = engine.dispatch_next() {
        processed += 1;
        if report.accepted {
            accepted += 1;
        }
    }

    assert_eq!(processed, 4);
    assert_eq!(accepted, 2);

    let stats = engine.get_stats();
    assert_eq!(stats.events_processed, 4);
    assert_eq!(stats.events_dropped, 2);
}

#[test]
fn host_invokes_guest() {
    let mut host = WasmHost::new().unwrap();
    let id = host.load_plugin(EVEN_FILTER.as_bytes()).unwrap();

    assert_eq!(host.invoke(id, 1, 2).unwrap(), 1);
    assert_eq!(host.invoke(id, 1, 3).unwrap(), 0);
}

#[test]
fn passive_plugin_is_noop() {
    let mut engine = ZenithEngine::new(4).unwrap();
    engine.load_plugin(PASSIVE.as_bytes()).unwrap();

    let (status, _) = engine.publish(batch(), 1, 1);
    assert_eq!(status, 0);
    let report = engine.dispatch_next().unwrap();
    assert!(report.accepted);
    assert_eq!(report.outcomes.len(), 1);
    assert!(matches!(report.outcomes[0], PluginOutcome::Passive));
}

#[test]
fn load_rejects_bad_bytecode() {
    let mut host = WasmHost::new().unwrap();
    let err = host.load_plugin(&[0u8, 1, 2, 3]).unwrap_err();
    assert!(matches!(err, ZenithError::PluginLoad(PluginLoadPhase::Compile, _)));
    assert_eq!(host.plugin_count(), 0);
}

#[test]
fn unload_makes_plugin_missing() {
    let mut host = WasmHost::new().unwrap();
    let id = host.load_plugin(EVEN_FILTER.as_bytes()).unwrap();
    assert!(host.invoke(id, 0, 0).is_ok());

    assert!(host.unload(id));
    assert!(!host.unload(id));
    assert!(matches!(host.invoke(id, 0, 0), Err(ZenithError::PluginMissing)));
}

#[test]
fn plugin_ids_are_stable() {
    let mut host = WasmHost::new().unwrap();
    let a = host.load_plugin(PASSIVE.as_bytes()).unwrap();
    let b = host.load_plugin(EVEN_FILTER.as_bytes()).unwrap();
    assert_eq!(a, 0);
    assert_eq!(b, 1);
    assert!(host.unload(a));
    let c = host.load_plugin(PASSIVE.as_bytes()).unwrap();
    assert_eq!(c, 2);
}
