//! Extension composition and the one-shot registration protocol: a builder
//! accumulates bootstrap sources, op registrations and optional setup
//! callbacks, and finalizes them into an immutable `Extension` whose op
//! table is handed off to the host exactly once.

use vstd::prelude::*;

verus! {

/// One unit of bootstrap source: a logical file name and the source text.
/// Order within a list is load order.
pub type SourcePair = (&'static str, &'static str);

/// A handle to a native callable. The host owns the function bodies and
/// resolves a handle when an op is invoked; this crate only registers
/// handles and hands them off, it never calls through one.
#[derive(Clone, Copy, PartialEq, Eq, Structural, Debug)]
pub struct OpFn {
    pub id: u64,
}

/// One entry of an op table: a canonical op name and the callable
/// registered under it.
pub type OpPair = (&'static str, OpFn);

/// The host-owned mutable container that ops read and write across
/// invocations; extensions seed it through their state initializer. The
/// slots stand for whatever resources the host keeps there.
#[derive(Debug)]
pub struct OpState {
    pub slots: Vec<u64>,
}

/// The error a state initializer propagates when its setup preconditions
/// are unmet.
#[derive(Debug)]
pub struct OpError {
    pub message: String,
}

/// An immutable-after-build bundle of bootstrap sources, an op table, an
/// optional state initializer and an optional op middleware. The op table
/// is handed off at most once; `initialized` records the hand-off.
pub struct Extension<S, M> {
    js_files: Option<Vec<SourcePair>>,
    ops: Option<Vec<OpPair>>,
    opstate_fn: Option<S>,
    middleware_fn: Option<M>,
    initialized: bool,
}

/// Copies a list of source pairs entry by entry.
fn clone_source_list(v: &Vec<SourcePair>) -> (r: Vec<SourcePair>)
    ensures
        r@ == v@,
{
    let mut r: Vec<SourcePair> = Vec::new();
    let mut i: usize = 0;
    while i < v.len()
        invariant
            i <= v@.len(),
            r@ == v@.take(i as int),
        decreases v@.len() - i,
    {
        r.push(v[i]);
        proof {
            assert(r@ =~= v@.take(i as int + 1));
        }
        i += 1;
    }
    proof {
        assert(v@.take(v@.len() as int) =~= v@);
    }
    r
}

impl<S, M> Extension<S, M> {
    /// The declared bootstrap sources, if a list was declared at all.
    pub closed spec fn spec_js_files(&self) -> Option<Seq<SourcePair>> {
        match self.js_files {
            Some(v) => Some(v@),
            None => None,
        }
    }

    /// The sources `init_js` yields: the declared list, or empty.
    pub open spec fn spec_js_list(&self) -> Seq<SourcePair> {
        match self.spec_js_files() {
            Some(s) => s,
            None => Seq::empty(),
        }
    }

    /// The op table still held, if any.
    pub closed spec fn spec_ops(&self) -> Option<Seq<OpPair>> {
        match self.ops {
            Some(v) => Some(v@),
            None => None,
        }
    }

    /// The registered state initializer, if any.
    pub closed spec fn spec_state_fn(&self) -> Option<S> {
        self.opstate_fn
    }

    /// The registered middleware, if any.
    pub closed spec fn spec_middleware_fn(&self) -> Option<M> {
        self.middleware_fn
    }

    /// Whether the op table was already handed off.
    pub closed spec fn spec_initialized(&self) -> bool {
        self.initialized
    }

    /// A fresh, empty builder.
    pub fn builder() -> (b: ExtensionBuilder<S, M>)
        ensures
            b.spec_js() == Seq::<SourcePair>::empty(),
            b.spec_ops() == Seq::<OpPair>::empty(),
            b.spec_state() is None,
            b.spec_middleware() is None,
    {
        ExtensionBuilder { js: Vec::new(), ops: Vec::new(), state: None, middleware: None }
    }

    /// Returns the bootstrap source pairs, in declared order, or an empty
    /// list if none were declared. Read-only, callable any number of
    /// times.
    pub fn init_js(&self) -> (r: Vec<SourcePair>)
        ensures
            r@ == self.spec_js_list(),
    {
        match &self.js_files {
            Some(files) => clone_source_list(files),
            None => Vec::new(),
        }
    }

    /// Hands the op table off to the host: the first call consumes and
    /// returns the table (possibly empty, but present). Ops carry
    /// exclusive ownership, so the hand-off happens at most once; a later
    /// call is a caller-side defect and is ruled out by the precondition.
    pub fn init_ops(&mut self) -> (r: Option<Vec<OpPair>>)
        requires
            !old(self).spec_initialized(),
        ensures
            final(self).spec_initialized(),
            final(self).spec_ops() is None,
            match r {
                Some(v) => old(self).spec_ops() == Some(v@),
                None => old(self).spec_ops() is None,
            },
            final(self).spec_js_files() == old(self).spec_js_files(),
            final(self).spec_state_fn() == old(self).spec_state_fn(),
            final(self).spec_middleware_fn() == old(self).spec_middleware_fn(),
    {
        self.initialized = true;
        self.ops.take()
    }

    /// Returns and clears the middleware callback: ownership transfers on
    /// the first call, and any later call yields `None` — absent
    /// middleware is not an error.
    pub fn init_middleware(&mut self) -> (r: Option<M>)
        ensures
            r == old(self).spec_middleware_fn(),
            final(self).spec_middleware_fn() is None,
            final(self).spec_js_files() == old(self).spec_js_files(),
            final(self).spec_ops() == old(self).spec_ops(),
            final(self).spec_state_fn() == old(self).spec_state_fn(),
            final(self).spec_initialized() == old(self).spec_initialized(),
    {
        self.middleware_fn.take()
    }

    /// Whether the op table was already handed off; a host checks this
    /// before calling `init_ops`.
    pub fn is_initialized(&self) -> (b: bool)
        ensures
            b == self.spec_initialized(),
    {
        self.initialized
    }
}

impl<S: Fn(OpState) -> Result<OpState, OpError>, M> Extension<S, M> {
    /// Applies the registered state initializer to the given state
    /// container and propagates its result; with no initializer the
    /// container passes through untouched. Callable multiple times;
    /// idempotence, where wanted, is the initializer's own business.
    pub fn init_state(&self, state: OpState) -> (r: Result<OpState, OpError>)
        requires
            self.spec_state_fn() matches Some(f) ==> call_requires(f, (state,)),
        ensures
            match self.spec_state_fn() {
                Some(f) => call_ensures(f, (state,), r),
                None => r == Ok::<OpState, OpError>(state),
            },
    {
        match &self.opstate_fn {
            Some(f) => f(state),
            None => Ok(state),
        }
    }
}

/// A mutable accumulator for one extension's declarations; `build` drains
/// it into a fresh `Extension` and leaves it empty for reuse.
pub struct ExtensionBuilder<S, M> {
    js: Vec<SourcePair>,
    ops: Vec<OpPair>,
    state: Option<S>,
    middleware: Option<M>,
}

impl<S, M> ExtensionBuilder<S, M> {
    /// The bootstrap sources accumulated so far.
    pub closed spec fn spec_js(&self) -> Seq<SourcePair> {
        self.js@
    }

    /// The op registrations accumulated so far.
    pub closed spec fn spec_ops(&self) -> Seq<OpPair> {
        self.ops@
    }

    /// The state initializer set so far, if any.
    pub closed spec fn spec_state(&self) -> Option<S> {
        self.state
    }

    /// The middleware set so far, if any.
    pub closed spec fn spec_middleware(&self) -> Option<M> {
        self.middleware
    }

    /// Appends bootstrap sources; declaration sites may contribute to one
    /// extension across several calls.
    pub fn js(&mut self, js_files: Vec<SourcePair>)
        ensures
            final(self).spec_js() == old(self).spec_js() + js_files@,
            final(self).spec_ops() == old(self).spec_ops(),
            final(self).spec_state() == old(self).spec_state(),
            final(self).spec_middleware() == old(self).spec_middleware(),
    {
        let mut tail = js_files;
        self.js.append(&mut tail);
    }

    /// Appends op registrations; callable repeatedly, like `js`.
    pub fn ops(&mut self, ops: Vec<OpPair>)
        ensures
            final(self).spec_ops() == old(self).spec_ops() + ops@,
            final(self).spec_js() == old(self).spec_js(),
            final(self).spec_state() == old(self).spec_state(),
            final(self).spec_middleware() == old(self).spec_middleware(),
    {
        let mut tail = ops;
        self.ops.append(&mut tail);
    }

    /// Sets the state initializer; the last write wins.
    pub fn state(&mut self, opstate_fn: S)
        ensures
            final(self).spec_state() == Some(opstate_fn),
            final(self).spec_js() == old(self).spec_js(),
            final(self).spec_ops() == old(self).spec_ops(),
            final(self).spec_middleware() == old(self).spec_middleware(),
    {
        self.state = Some(opstate_fn);
    }

    /// Sets the op middleware; the last write wins.
    pub fn middleware(&mut self, middleware_fn: M)
        ensures
            final(self).spec_middleware() == Some(middleware_fn),
            final(self).spec_js() == old(self).spec_js(),
            final(self).spec_ops() == old(self).spec_ops(),
            final(self).spec_state() == old(self).spec_state(),
    {
        self.middleware = Some(middleware_fn);
    }

    /// Drains everything accumulated into a brand-new, not yet handed-off
    /// `Extension`, and resets the builder so it can assemble a further,
    /// independent extension.
    pub fn build(&mut self) -> (e: Extension<S, M>)
        ensures
            e.spec_js_files() == Some(old(self).spec_js()),
            e.spec_ops() == Some(old(self).spec_ops()),
            e.spec_state_fn() == old(self).spec_state(),
            e.spec_middleware_fn() == old(self).spec_middleware(),
            !e.spec_initialized(),
            final(self).spec_js() == Seq::<SourcePair>::empty(),
            final(self).spec_ops() == Seq::<OpPair>::empty(),
            final(self).spec_state() is None,
            final(self).spec_middleware() is None,
    {
        let mut js_files: Vec<SourcePair> = Vec::new();
        core::mem::swap(&mut js_files, &mut self.js);
        let mut ops_list: Vec<OpPair> = Vec::new();
        core::mem::swap(&mut ops_list, &mut self.ops);
        Extension {
            js_files: Some(js_files),
            ops: Some(ops_list),
            opstate_fn: self.state.take(),
            middleware_fn: self.middleware.take(),
            initialized: false,
        }
    }
}

/// Applies a middleware to every entry of an op table before the table is
/// considered registered: each callable is replaced by the middleware's
/// output for that (name, callable) pair, and the names keep their order.
pub fn apply_middleware<M: Fn(&'static str, OpFn) -> OpFn>(ops: Vec<OpPair>, m: M) -> (r: Vec<
    OpPair,
>)
    requires
        forall|i: int| 0 <= i < ops@.len() ==> call_requires(m, (ops@[i].0, ops@[i].1)),
    ensures
        r@.len() == ops@.len(),
        forall|i: int| 0 <= i < ops@.len() ==> (#[trigger] r@[i]).0 == ops@[i].0,
        forall|i: int|
            0 <= i < ops@.len() ==> call_ensures(m, (ops@[i].0, ops@[i].1), (#[trigger] r@[i]).1),
{
    let mut r: Vec<OpPair> = Vec::new();
    let mut i: usize = 0;
    while i < ops.len()
        invariant
            i <= ops@.len(),
            r@.len() == i,
            forall|j: int| 0 <= j < i ==> (#[trigger] r@[j]).0 == ops@[j].0,
            forall|j: int|
                0 <= j < i ==> call_ensures(m, (ops@[j].0, ops@[j].1), (#[trigger] r@[j]).1),
            forall|j: int| 0 <= j < ops@.len() ==> call_requires(m, (ops@[j].0, ops@[j].1)),
        decreases ops@.len() - i,
    {
        let (name, f) = ops[i];
        let g = m(name, f);
        r.push((name, g));
        i += 1;
    }
    r
}

/// Law: reading the bootstrap sources is repeatable; the list an extension
/// yields is a function of the extension alone, so any two reads of the
/// same extension yield equal lists.
pub proof fn lemma_init_js_repeatable<S, M>(
    e: Extension<S, M>,
    r1: Seq<SourcePair>,
    r2: Seq<SourcePair>,
)
    requires
        r1 == e.spec_js_list(),
        r2 == e.spec_js_list(),
    ensures
        r1 == r2,
{
}

/// Law: a builder drained by one `build` yields, unrefilled, a second
/// extension whose source and op tables are both present and empty — the
/// second build is not contaminated by the first.
pub proof fn lemma_rebuild_is_empty<S, M>(b: ExtensionBuilder<S, M>, e: Extension<S, M>)
    requires
        b.spec_js() == Seq::<SourcePair>::empty(),
        b.spec_ops() == Seq::<OpPair>::empty(),
        e.spec_js_files() == Some(b.spec_js()),
        e.spec_ops() == Some(b.spec_ops()),
    ensures
        e.spec_js_files() == Some(Seq::<SourcePair>::empty()),
        e.spec_ops() == Some(Seq::<OpPair>::empty()),
{
}

} // verus!
