//! The sandboxed plugin host.
//!
//! Untrusted bytecode modules are compiled, linked against the WASI
//! snapshot-preview1 surface (standard input/output inheritance only), and
//! instantiated once each, with their own store and linear memory. The
//! canonical callback is `on_event(source_id: u32, seq_no: u64) -> i32`;
//! a module without it is accepted as a passive plugin. The wasmtime calls
//! themselves stand behind the trusted wrappers below; the registry logic
//! around them — identifiers, lookup, dispatch order, unloading — is
//! verified.

use vstd::prelude::*;
use crate::error::{PluginLoadPhase, ZenithError};

verus! {

/// The sandbox runtime: the engine and the linker that resolves only the
/// platform's published host surface, created together by `sandbox_new`
/// and never taken apart. Hidden from the verifier so that no verified
/// code can recombine pieces of two runtimes.
#[verifier::external_body]
struct SandboxRuntime {
    engine: wasmtime::Engine,
    linker: wasmtime::Linker<wasmtime_wasi::p1::WasiP1Ctx>,
}

/// One loaded sandbox instance: the store owning the linear memory, the
/// instantiated module, and its callback export. All three are created
/// from one runtime inside `sandbox_load` and packed together, and the
/// pack is hidden from the verifier, so the store always owns the
/// instance and export it is called with: wasmtime's ownership panics
/// are unreachable from verified code.
#[verifier::external_body]
struct PluginInstance {
    store: wasmtime::Store<wasmtime_wasi::p1::WasiP1Ctx>,
    instance: wasmtime::Instance,
    on_event: Option<wasmtime::TypedFunc<(u32, u64), i32>>,
}

/// Relies on wasmtime's Config::new and Engine::new, Linker::new, and
/// wasmtime_wasi's p1::add_to_linker_sync (the closure only hands the
/// store data back). The engine uses the default synchronous
/// configuration, so every store later built from this runtime is
/// synchronous; an error becomes its message.
#[verifier::external_body]
fn sandbox_new() -> (r: Result<SandboxRuntime, String>) {
    let engine = match wasmtime::Engine::new(&wasmtime::Config::new()) {
        Ok(e) => e,
        Err(e) => return Err(e.to_string()),
    };
    let mut linker = wasmtime::Linker::new(&engine);
    if let Err(e) = wasmtime_wasi::p1::add_to_linker_sync(&mut linker, |t| t) {
        return Err(e.to_string());
    }
    Ok(SandboxRuntime { engine, linker })
}

/// Relies on wasmtime's Module::new (validate and compile),
/// Linker::instantiate_pre (the link step), wasmtime_wasi's
/// WasiCtxBuilder (fresh and consumed here: standard input/output
/// inheritance only, so its build-twice panic is unreachable),
/// Store::new, InstancePre::instantiate, and Instance::get_typed_func.
/// The store is synchronous and built from the same runtime as the
/// pre-instantiated module inside this one body, so the documented
/// panics (async store, foreign engine, unowned instance) are
/// unreachable. Each failing phase comes back under its name; the
/// boolean says whether the export of the given name and shape exists.
#[verifier::external_body]
fn sandbox_load(rt: &SandboxRuntime, bytes: &[u8], export: &str) -> (r: Result<
    (PluginInstance, bool),
    (PluginLoadPhase, String),
>) {
    let module = wasmtime::Module::new(&rt.engine, bytes)
        .map_err(|e| (PluginLoadPhase::Compile, e.to_string()))?;
    let pre = rt.linker.instantiate_pre(&module)
        .map_err(|e| (PluginLoadPhase::Link, e.to_string()))?;
    let ctx = wasmtime_wasi::WasiCtxBuilder::new().inherit_stdio().build_p1();
    let mut store = wasmtime::Store::new(&rt.engine, ctx);
    let instance = pre.instantiate(&mut store)
        .map_err(|e| (PluginLoadPhase::Instantiate, e.to_string()))?;
    let on_event = instance.get_typed_func::<(u32, u64), i32>(&mut store, export).ok();
    let has_export = on_event.is_some();
    Ok((PluginInstance { store, instance, on_event }, has_export))
}

/// Relies on wasmtime's TypedFunc::call: runs the packed export in the
/// store it was created in (the pack makes the ownership panic
/// unreachable) and returns the guest's result, or the trap message. An
/// instance packed without the export reports an error instead of
/// calling anything.
#[verifier::external_body]
fn sandbox_invoke(p: &mut PluginInstance, source_id: u32, seq_no: u64) -> (r: Result<i32, String>) {
    match &p.on_event {
        Some(f) => f.call(&mut p.store, (source_id, seq_no)).map_err(|e| e.to_string()),
        None => Err("the instance exports no callback".to_string()),
    }
}

/// A loaded plugin: a stable identifier, whether the module is passive,
/// and the packed sandbox instance.
pub struct WasmPlugin {
    id: u64,
    passive: bool,
    instance: PluginInstance,
}

impl WasmPlugin {
    /// The plugin's identifier, stable across the process.
    pub closed spec fn spec_id(&self) -> u64 {
        self.id
    }

    /// A passive plugin exports no `on_event`; dispatch is a no-op for it.
    pub closed spec fn spec_passive(&self) -> bool {
        self.passive
    }

    /// The plugin's identifier.
    pub fn id(&self) -> (r: u64)
        ensures
            r == self.spec_id(),
    {
        self.id
    }

    /// Whether the plugin is passive.
    pub fn is_passive(&self) -> (r: bool)
        ensures
            r == self.spec_passive(),
    {
        self.passive
    }

    /// Call the plugin's `on_event` with the event identity. A trap is
    /// captured and reported as `PluginTrap`; a passive plugin reports
    /// `PluginMissing`. What the guest returns is the guest's choice, so
    /// only the shape of the outcome is stated.
    pub fn invoke(&mut self, source_id: u32, seq_no: u64) -> (r: Result<i32, ZenithError>)
        ensures
            final(self).spec_id() == old(self).spec_id(),
            final(self).spec_passive() == old(self).spec_passive(),
            old(self).spec_passive() <==> r == Result::<i32, ZenithError>::Err(
                ZenithError::PluginMissing,
            ),
            r is Err ==> (r matches Err(e) && (e is PluginTrap || e is PluginMissing)),
    {
        if self.passive {
            return Err(ZenithError::PluginMissing);
        }
        match sandbox_invoke(&mut self.instance, source_id, seq_no) {
            Ok(v) => Ok(v),
            Err(msg) => Err(ZenithError::PluginTrap(msg)),
        }
    }
}


/// The plugin host: the packed sandbox runtime and the registry of
/// loaded plugins in load order.
pub struct WasmHost {
    runtime: SandboxRuntime,
    plugins: Vec<WasmPlugin>,
    next_plugin_id: u64,
}

impl WasmHost {
    /// The identifiers of the loaded plugins, in registration order.
    pub closed spec fn spec_ids(&self) -> Seq<u64> {
        self.plugins@.map(|i: int, p: WasmPlugin| p.spec_id())
    }

    /// Which registered plugins are passive, in registration order.
    pub closed spec fn spec_passives(&self) -> Seq<bool> {
        self.plugins@.map(|i: int, p: WasmPlugin| p.spec_passive())
    }

    /// The identifier the next loaded plugin will receive.
    pub closed spec fn spec_next_id(&self) -> u64 {
        self.next_plugin_id
    }

    /// Well-formed host: every registered identifier was drawn from the
    /// counter, so identifiers are unique.
    pub closed spec fn wf(&self) -> bool {
        &&& forall|i: int|
            0 <= i < self.spec_ids().len() ==> self.spec_ids()[i] < self.next_plugin_id
        &&& forall|i: int, j: int|
            0 <= i < j < self.spec_ids().len() ==> self.spec_ids()[i] != self.spec_ids()[j]
    }

    /// Number of loaded plugins.
    pub fn plugin_count(&self) -> (r: usize)
        ensures
            r == self.spec_ids().len(),
    {
        self.plugins.len()
    }

    /// The identifier the next loaded plugin will receive.
    pub fn next_id(&self) -> (r: u64)
        ensures
            r == self.spec_next_id(),
    {
        self.next_plugin_id
    }

    /// Build a host with an empty registry. Fails only when the sandbox
    /// runtime itself cannot be constructed or its WASI surface cannot be
    /// linked.
    pub fn new() -> (r: Result<WasmHost, ZenithError>)
        ensures
            r matches Ok(host) ==> {
                &&& host.wf()
                &&& host.spec_ids() == Seq::<u64>::empty()
                &&& host.spec_next_id() == 0
            },
            r matches Err(e) ==> e is WasmError,
    {
        let runtime = match sandbox_new() {
            Ok(rt) => rt,
            Err(msg) => { return Err(ZenithError::WasmError(msg)) },
        };
        let host = WasmHost { runtime, plugins: Vec::new(), next_plugin_id: 0 };
        assert(host.spec_ids() =~= Seq::<u64>::empty());
        Ok(host)
    }

    /// Validate, compile, link, and instantiate a module, then register it
    /// under a fresh identifier. A module without `on_event` is accepted
    /// as a passive plugin. On failure the registry is unchanged and the
    /// error names the phase that rejected the module.
    pub fn load_plugin(&mut self, wasm_bytes: &[u8]) -> (r: Result<u64, ZenithError>)
        requires
            old(self).wf(),
            old(self).spec_next_id() < u64::MAX,
        ensures
            final(self).wf(),
            r matches Ok(id) ==> {
                &&& id == old(self).spec_next_id()
                &&& final(self).spec_ids() == old(self).spec_ids().push(id)
                &&& final(self).spec_next_id() == old(self).spec_next_id() + 1
            },
            r is Err ==> {
                &&& final(self).spec_ids() == old(self).spec_ids()
                &&& final(self).spec_passives() == old(self).spec_passives()
                &&& final(self).spec_next_id() == old(self).spec_next_id()
                &&& (r matches Err(e) && e is PluginLoad)
            },
    {
        let loaded = match sandbox_load(&self.runtime, wasm_bytes, "on_event") {
            Ok(x) => x,
            Err(e) => { return Err(ZenithError::PluginLoad(e.0, e.1)) },
        };
        let has_export = loaded.1;
        let id = self.next_plugin_id;
        let plugin = WasmPlugin { id, passive: !has_export, instance: loaded.0 };
        self.plugins.push(plugin);
        self.next_plugin_id = id + 1;
        assert(self.spec_ids() =~= old(self).spec_ids().push(id));
        Ok(id)
    }

    /// Whether the plugin at the given registry position is passive.
    pub fn is_passive_at(&self, index: usize) -> (r: bool)
        requires
            index < self.spec_ids().len(),
        ensures
            r == self.spec_passives()[index as int],
    {
        self.plugins[index].is_passive()
    }

    /// Call `on_event` of the plugin at the given registry position, in
    /// registration order as the consumer loop does. A passive plugin
    /// reports `PluginMissing`; a trap is captured as `PluginTrap`.
    pub fn invoke_at(&mut self, index: usize, source_id: u32, seq_no: u64) -> (r: Result<
        i32,
        ZenithError,
    >)
        requires
            old(self).wf(),
            index < old(self).spec_ids().len(),
        ensures
            final(self).wf(),
            final(self).spec_ids() == old(self).spec_ids(),
            final(self).spec_passives() == old(self).spec_passives(),
            final(self).spec_next_id() == old(self).spec_next_id(),
            old(self).spec_passives()[index as int] <==> r == Result::<i32, ZenithError>::Err(
                ZenithError::PluginMissing,
            ),
            r is Err ==> (r matches Err(e) && (e is PluginTrap || e is PluginMissing)),
    {
        let ghost old_ids = self.spec_ids();
        let ghost old_passives = self.spec_passives();
        let plugin = &mut self.plugins[index];
        let r = plugin.invoke(source_id, seq_no);
        proof {
            assert(self.spec_ids() =~= old_ids);
            assert(self.spec_passives() =~= old_passives);
        }
        r
    }

    /// Find the registry position of a plugin identifier.
    fn find_plugin(&self, plugin_id: u64) -> (r: Option<usize>)
        ensures
            r matches Some(i) ==> i < self.spec_ids().len() && self.spec_ids()[i as int]
                == plugin_id,
            r is None ==> forall|i: int|
                0 <= i < self.spec_ids().len() ==> self.spec_ids()[i] != plugin_id,
    {
        let mut i: usize = 0;
        while i < self.plugins.len()
            invariant
                i <= self.plugins.len(),
                forall|k: int| 0 <= k < i ==> self.spec_ids()[k] != plugin_id,
            decreases self.plugins.len() - i,
        {
            if self.plugins[i].id() == plugin_id {
                return Some(i);
            }
            i = i + 1;
        }
        None
    }

    /// Locate the plugin and call its `on_event`. An unknown identifier or
    /// a passive plugin reports `PluginMissing`; a trap is captured as
    /// `PluginTrap`. The registry keeps its identifiers and order.
    pub fn invoke(&mut self, plugin_id: u64, source_id: u32, seq_no: u64) -> (r: Result<
        i32,
        ZenithError,
    >)
        requires
            old(self).wf(),
        ensures
            final(self).wf(),
            final(self).spec_ids() == old(self).spec_ids(),
            final(self).spec_passives() == old(self).spec_passives(),
            final(self).spec_next_id() == old(self).spec_next_id(),
            (forall|i: int|
                0 <= i < old(self).spec_ids().len() ==> old(self).spec_ids()[i] != plugin_id) ==> r
                == Result::<i32, ZenithError>::Err(ZenithError::PluginMissing),
            r is Err ==> (r matches Err(e) && (e is PluginTrap || e is PluginMissing)),
    {
        let idx = match self.find_plugin(plugin_id) {
            Some(i) => i,
            None => { return Err(ZenithError::PluginMissing) },
        };
        let ghost old_ids = self.spec_ids();
        let ghost old_passives = self.spec_passives();
        let plugin = &mut self.plugins[idx];
        let r = plugin.invoke(source_id, seq_no);
        proof {
            assert(self.spec_ids() =~= old_ids);
            assert(self.spec_passives() =~= old_passives);
        }
        r
    }

    /// Destroy the plugin with the given identifier. Returns whether it
    /// was loaded; afterwards invocations of that identifier fail with
    /// `PluginMissing`.
    pub fn unload(&mut self, plugin_id: u64) -> (r: bool)
        requires
            old(self).wf(),
        ensures
            final(self).wf(),
            final(self).spec_next_id() == old(self).spec_next_id(),
            r == old(self).spec_ids().contains(plugin_id),
            !r ==> final(self).spec_ids() == old(self).spec_ids(),
            r ==> exists|i: int|
                {
                    &&& 0 <= i < old(self).spec_ids().len()
                    &&& old(self).spec_ids()[i] == plugin_id
                    &&& final(self).spec_ids() == old(self).spec_ids().remove(i)
                },
            forall|i: int|
                0 <= i < final(self).spec_ids().len() ==> final(self).spec_ids()[i] != plugin_id,
    {
        match self.find_plugin(plugin_id) {
            Some(i) => {
                let _ = self.plugins.remove(i);
                proof {
                    assert(self.spec_ids() =~= old(self).spec_ids().remove(i as int));
                    assert(old(self).spec_ids().contains(plugin_id));
                    assert forall|k: int|
                        0 <= k < self.spec_ids().len() implies self.spec_ids()[k]
                        != plugin_id by {
                        if k < i {
                        } else {
                            assert(self.spec_ids()[k] == old(self).spec_ids()[k + 1]);
                        }
                    }
                }
                true
            },
            None => {
                proof {
                    if old(self).spec_ids().contains(plugin_id) {
                        let i = choose|i: int|
                            0 <= i < old(self).spec_ids().len() && old(self).spec_ids()[i]
                                == plugin_id;
                        assert(false);
                    }
                }
                false
            },
        }
    }
}

} // verus!
