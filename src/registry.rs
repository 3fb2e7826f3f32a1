//! The registry of in-host functions and their lifecycle:
//! Unloaded → Loading → Ready → Unloading → Unloaded.
//!
//! The registry decides; the caller runs the handler's callbacks. Each
//! transition comes in two halves, `begin_*` and `finish_*`, so that no
//! borrow of the registry is held while `on_load`, `fetch` or `on_unload`
//! runs: the caller performs the callback between the halves.
use crate::handler::{copy_env, FezzError, FunctionContext};
use crate::http::text_map;
use crate::strmap::StrMap;
use crate::text::concat3;
use vstd::prelude::*;

verus! {

/// Where a function stands in its lifecycle.
#[derive(Debug, Clone, Copy, PartialEq, Eq, Structural)]
pub enum FunctionState {
    Unloaded,
    Loading,
    Ready,
    Unloading,
}

/// A registered function: its handler, where it stands, the context it runs
/// with, and how many invocations are in flight.
pub struct RegistryEntry<H> {
    pub handler: H,
    pub state: FunctionState,
    pub context: FunctionContext,
    pub active_invocations: usize,
}

/// What `begin_load` asks of the caller.
#[derive(Debug)]
pub enum LoadStep {
    /// Call `on_load` with this context, then `finish_load`.
    Run(FunctionContext),
    /// The function is loaded already; nothing to do.
    AlreadyLoaded,
}

/// What `begin_unload` asks of the caller.
#[derive(Debug)]
pub enum UnloadStep {
    /// Call `on_unload` with this context, then `finish_unload`.
    Run(FunctionContext),
    /// The function is unloaded already; nothing to do.
    AlreadyUnloaded,
}

/// The state a load request leaves behind, and whether it asks for `on_load`;
/// `None` when a load or unload is in progress and the request is refused.
pub open spec fn load_transition(s: FunctionState) -> Option<(FunctionState, bool)> {
    match s {
        FunctionState::Unloaded => Some((FunctionState::Loading, true)),
        FunctionState::Ready => Some((FunctionState::Ready, false)),
        _ => None,
    }
}

/// The state an unload request leaves behind, and whether it asks for `on_unload`.
pub open spec fn unload_transition(s: FunctionState) -> Option<(FunctionState, bool)> {
    match s {
        FunctionState::Ready => Some((FunctionState::Unloading, true)),
        FunctionState::Unloaded => Some((FunctionState::Unloaded, false)),
        _ => None,
    }
}

/// The state after `on_load` returned.
pub open spec fn loaded_state(succeeded: bool) -> FunctionState {
    if succeeded {
        FunctionState::Ready
    } else {
        FunctionState::Unloaded
    }
}

/// Invocations are admitted only while the function is ready.
pub open spec fn admits_invocations(s: FunctionState) -> bool {
    s == FunctionState::Ready
}

pub open spec fn not_found_text(name: Seq<char>) -> Seq<char> {
    "Function '"@ + name + "' not found"@
}

pub open spec fn duplicate_text(name: Seq<char>) -> Seq<char> {
    "Function '"@ + name + "' is already registered"@
}

pub open spec fn busy_text(name: Seq<char>) -> Seq<char> {
    "Function '"@ + name + "' is busy loading or unloading"@
}

pub open spec fn not_ready_text(name: Seq<char>) -> Seq<char> {
    "Function '"@ + name + "' is not ready"@
}

pub struct FunctionRegistry<H> {
    functions: StrMap<RegistryEntry<H>>,
    global_env: StrMap<String>,
}

fn not_found(name: &str) -> (e: FezzError)
    ensures
        e.code == 404,
        e.message@ == not_found_text(name@),
{
    FezzError::not_found(concat3("Function '", name, "' not found").as_str())
}

impl<H> FunctionRegistry<H> {
    pub closed spec fn wf(&self) -> bool {
        &&& self.functions.wf()
        &&& self.global_env.wf()
        &&& forall|k: Seq<char>| #[trigger]
            self.functions.view().contains_key(k) ==> self.functions.view()[k].context.wf()
    }

    /// The registered names and their states.
    pub closed spec fn states(&self) -> Map<Seq<char>, FunctionState> {
        self.functions.view().map_values(|e: RegistryEntry<H>| e.state)
    }

    /// The registered names and their in-flight invocation counts.
    pub closed spec fn active(&self) -> Map<Seq<char>, nat> {
        self.functions.view().map_values(|e: RegistryEntry<H>| e.active_invocations as nat)
    }

    /// The registered names and their handlers.
    pub closed spec fn handlers(&self) -> Map<Seq<char>, H> {
        self.functions.view().map_values(|e: RegistryEntry<H>| e.handler)
    }

    /// The environment each newly registered function starts with.
    pub closed spec fn env(&self) -> Map<Seq<char>, Seq<char>> {
        text_map(self.global_env.view())
    }

    /// The context a function runs with: its name, environment and request id.
    pub closed spec fn context_of(&self, name: Seq<char>) -> (Seq<char>, Map<Seq<char>, Seq<char>>) {
        let c = self.functions.view()[name].context;
        (c.function_name@, text_map(c.env.view()))
    }

    pub fn new() -> (r: Self)
        ensures
            r.wf(),
            r.states() == Map::<Seq<char>, FunctionState>::empty(),
            r.env() == Map::<Seq<char>, Seq<char>>::empty(),
    {
        let r = FunctionRegistry { functions: StrMap::new(), global_env: StrMap::new() };
        assert(r.states() =~= Map::<Seq<char>, FunctionState>::empty());
        assert(r.env() =~= Map::<Seq<char>, Seq<char>>::empty());
        r
    }

    /// A registry whose functions all start with the environment `env`.
    pub fn with_env(env: StrMap<String>) -> (r: Self)
        requires
            env.wf(),
        ensures
            r.wf(),
            r.states() == Map::<Seq<char>, FunctionState>::empty(),
            r.env() == text_map(env.view()),
    {
        let r = FunctionRegistry { functions: StrMap::new(), global_env: env };
        assert(r.states() =~= Map::<Seq<char>, FunctionState>::empty());
        r
    }

    proof fn lemma_put(
        &self,
        other: &Self,
        name: Seq<char>,
        e: RegistryEntry<H>,
    )
        requires
            self.wf(),
            other.functions.wf(),
            other.global_env == self.global_env,
            other.functions.view() == self.functions.view().insert(name, e),
            e.context.wf(),
        ensures
            other.wf(),
            other.states() == self.states().insert(name, e.state),
            other.active() == self.active().insert(name, e.active_invocations as nat),
            other.handlers() == self.handlers().insert(name, e.handler),
            other.env() == self.env(),
    {
        assert(other.states() =~= self.states().insert(name, e.state));
        assert(other.active() =~= self.active().insert(name, e.active_invocations as nat));
        assert(other.handlers() =~= self.handlers().insert(name, e.handler));
    }

    /// Adds a function in the Unloaded state; fails if the name is taken.
    pub fn register(&mut self, name: &str, handler: H) -> (r: Result<(), FezzError>)
        requires
            old(self).wf(),
        ensures
            final(self).wf(),
            final(self).env() == old(self).env(),
            r is Ok <==> !old(self).states().contains_key(name@),
            r is Ok ==> final(self).states() == old(self).states().insert(name@, FunctionState::Unloaded),
            r is Ok ==> final(self).active() == old(self).active().insert(name@, 0),
            r is Ok ==> final(self).handlers() == old(self).handlers().insert(name@, handler),
            r is Ok ==> final(self).context_of(name@) == (name@, old(self).env()),
            r matches Err(e) ==> e.code == 500 && e.message@ == duplicate_text(name@),
            r is Err ==> final(self).states() == old(self).states(),
    {
        if self.functions.contains_key(name) {
            return Err(FezzError::new(concat3("Function '", name, "' is already registered").as_str()));
        }
        let mut context = FunctionContext::new(name, "");
        context.env = copy_env(&self.global_env);
        let ghost before = *self;
        let e = RegistryEntry { handler, state: FunctionState::Unloaded, context, active_invocations: 0 };
        let ghost eg = e;
        self.functions.insert(name.to_owned(), e);
        proof {
            before.lemma_put(self, name@, eg);
        }
        Ok(())
    }

    /// First half of a load. From Unloaded the function moves to Loading and
    /// the caller is to run `on_load`; a Ready function needs nothing; a load
    /// or unload already in progress makes the request fail.
    pub fn begin_load(&mut self, name: &str) -> (r: Result<LoadStep, FezzError>)
        requires
            old(self).wf(),
        ensures
            final(self).wf(),
            final(self).env() == old(self).env(),
            final(self).handlers() == old(self).handlers(),
            final(self).active() == old(self).active(),
            !old(self).states().contains_key(name@) ==> (r matches Err(e) && e.code == 404
                && e.message@ == not_found_text(name@)),
            old(self).states().contains_key(name@) ==> match load_transition(
                old(self).states()[name@],
            ) {
                Some((s, runs)) => final(self).states() == old(self).states().insert(name@, s)
                    && match r {
                    Ok(LoadStep::Run(c)) => runs && c.wf() && c.function_name@ == old(
                        self,
                    ).context_of(name@).0 && text_map(c.env.view()) == old(self).context_of(
                        name@,
                    ).1,
                    Ok(LoadStep::AlreadyLoaded) => !runs,
                    Err(_) => false,
                },
                None => final(self).states() == old(self).states() && (r matches Err(e) && e.code
                    == 500 && e.message@ == busy_text(name@)),
            },
    {
        let ghost before = *self;
        let entry = match self.functions.remove(name) {
            Some(e) => e,
            None => {
                return Err(not_found(name));
            },
        };
        let ghost removed = *self;
        let ghost old_entry = entry;
        let mut entry = entry;
        let result = match entry.state {
            FunctionState::Unloaded => {
                entry.state = FunctionState::Loading;
                let ctx = entry.context.for_request(entry.context.request_id.as_str());
                Ok(LoadStep::Run(ctx))
            },
            FunctionState::Ready => Ok(LoadStep::AlreadyLoaded),
            _ => Err(FezzError::new(concat3("Function '", name, "' is busy loading or unloading").as_str())),
        };
        let ghost eg = entry;
        self.functions.insert(name.to_owned(), entry);
        proof {
            assert(self.functions.view() =~= before.functions.view().insert(name@, eg));
            before.lemma_put(self, name@, eg);
            assert(before.functions.view().insert(name@, old_entry) =~= before.functions.view());
            assert(before.states().insert(name@, old_entry.state) =~= before.states());
        }
        result
    }

    /// Second half of a load: Ready if `on_load` succeeded, else back to Unloaded.
    pub fn finish_load(&mut self, name: &str, succeeded: bool)
        requires
            old(self).wf(),
        ensures
            final(self).wf(),
            final(self).env() == old(self).env(),
            final(self).handlers() == old(self).handlers(),
            final(self).active() == old(self).active(),
            final(self).states() == if old(self).states().contains_key(name@) {
                old(self).states().insert(name@, loaded_state(succeeded))
            } else {
                old(self).states()
            },
    {
        self.set_state(name, if succeeded { FunctionState::Ready } else { FunctionState::Unloaded });
    }

    fn set_state(&mut self, name: &str, s: FunctionState)
        requires
            old(self).wf(),
        ensures
            final(self).wf(),
            final(self).env() == old(self).env(),
            final(self).handlers() == old(self).handlers(),
            final(self).active() == old(self).active(),
            final(self).states() == if old(self).states().contains_key(name@) {
                old(self).states().insert(name@, s)
            } else {
                old(self).states()
            },
    {
        let ghost before = *self;
        match self.functions.remove(name) {
            Some(e) => {
                let mut e = e;
                let ghost old_e = e;
                e.state = s;
                let ghost eg = e;
                self.functions.insert(name.to_owned(), e);
                proof {
                    assert(self.functions.view() =~= before.functions.view().insert(name@, eg));
                    before.lemma_put(self, name@, eg);
                    assert(before.functions.view().insert(name@, old_e) =~= before.functions.view());
                    assert(before.active().insert(name@, old_e.active_invocations as nat) =~= before.active());
                    assert(before.handlers().insert(name@, old_e.handler) =~= before.handlers());
                }
            },
            None => {},
        }
    }

    /// First half of an unload. From Ready the function moves to Unloading and
    /// the caller is to run `on_unload`; an Unloaded function needs nothing; a
    /// load or unload in progress makes the request fail.
    pub fn begin_unload(&mut self, name: &str) -> (r: Result<UnloadStep, FezzError>)
        requires
            old(self).wf(),
        ensures
            final(self).wf(),
            final(self).env() == old(self).env(),
            final(self).handlers() == old(self).handlers(),
            final(self).active() == old(self).active(),
            !old(self).states().contains_key(name@) ==> (r matches Err(e) && e.code == 404
                && e.message@ == not_found_text(name@)),
            old(self).states().contains_key(name@) ==> match unload_transition(
                old(self).states()[name@],
            ) {
                Some((s, runs)) => final(self).states() == old(self).states().insert(name@, s)
                    && match r {
                    Ok(UnloadStep::Run(c)) => runs && c.wf() && c.function_name@ == old(
                        self,
                    ).context_of(name@).0 && text_map(c.env.view()) == old(self).context_of(
                        name@,
                    ).1,
                    Ok(UnloadStep::AlreadyUnloaded) => !runs,
                    Err(_) => false,
                },
                None => final(self).states() == old(self).states() && (r matches Err(e) && e.code
                    == 500 && e.message@ == busy_text(name@)),
            },
    {
        let ghost before = *self;
        let entry = match self.functions.remove(name) {
            Some(e) => e,
            None => {
                return Err(not_found(name));
            },
        };
        let ghost old_entry = entry;
        let mut entry = entry;
        let result = match entry.state {
            FunctionState::Ready => {
                entry.state = FunctionState::Unloading;
                let ctx = entry.context.for_request(entry.context.request_id.as_str());
                Ok(UnloadStep::Run(ctx))
            },
            FunctionState::Unloaded => Ok(UnloadStep::AlreadyUnloaded),
            _ => Err(FezzError::new(concat3("Function '", name, "' is busy loading or unloading").as_str())),
        };
        let ghost eg = entry;
        self.functions.insert(name.to_owned(), entry);
        proof {
            assert(self.functions.view() =~= before.functions.view().insert(name@, eg));
            before.lemma_put(self, name@, eg);
            assert(before.functions.view().insert(name@, old_entry) =~= before.functions.view());
            assert(before.states().insert(name@, old_entry.state) =~= before.states());
        }
        result
    }

    /// Second half of an unload: the function is Unloaded whatever `on_unload` returned.
    pub fn finish_unload(&mut self, name: &str)
        requires
            old(self).wf(),
        ensures
            final(self).wf(),
            final(self).env() == old(self).env(),
            final(self).handlers() == old(self).handlers(),
            final(self).active() == old(self).active(),
            final(self).states() == if old(self).states().contains_key(name@) {
                old(self).states().insert(name@, FunctionState::Unloaded)
            } else {
                old(self).states()
            },
    {
        self.set_state(name, FunctionState::Unloaded);
    }

    /// Admits one invocation of a Ready function: counts it in flight and
    /// hands back the function's context stamped with `request_id`.
    pub fn begin_invocation(&mut self, name: &str, request_id: &str) -> (r: Result<
        FunctionContext,
        FezzError,
    >)
        requires
            old(self).wf(),
        ensures
            final(self).wf(),
            final(self).env() == old(self).env(),
            final(self).handlers() == old(self).handlers(),
            final(self).states() == old(self).states(),
            !old(self).states().contains_key(name@) ==> (r matches Err(e) && e.code == 404
                && e.message@ == not_found_text(name@)) && final(self).active() == old(self).active(),
            old(self).states().contains_key(name@) && admits_invocations(old(self).states()[name@])
                && old(self).active()[name@] < usize::MAX ==> (r matches Ok(c) && c.wf()
                && c.request_id@ == request_id@ && c.function_name@ == old(self).context_of(
                name@,
            ).0 && text_map(c.env.view()) == old(self).context_of(name@).1) && final(self).active()
                == old(self).active().insert(name@, old(self).active()[name@] + 1),
            old(self).states().contains_key(name@) && !(admits_invocations(old(self).states()[name@])
                && old(self).active()[name@] < usize::MAX) ==> (r matches Err(e) && e.code == 503
                && e.message@ == not_ready_text(name@)) && final(self).active() == old(self).active(),
    {
        let ghost before = *self;
        let entry = match self.functions.remove(name) {
            Some(e) => e,
            None => {
                return Err(not_found(name));
            },
        };
        let ghost old_entry = entry;
        let mut entry = entry;
        let result = if entry.state == FunctionState::Ready && entry.active_invocations < usize::MAX {
            entry.active_invocations = entry.active_invocations + 1;
            Ok(entry.context.for_request(request_id))
        } else {
            Err(FezzError::with_code(503, concat3("Function '", name, "' is not ready").as_str()))
        };
        let ghost eg = entry;
        self.functions.insert(name.to_owned(), entry);
        proof {
            assert(self.functions.view() =~= before.functions.view().insert(name@, eg));
            before.lemma_put(self, name@, eg);
            assert(before.functions.view().insert(name@, old_entry) =~= before.functions.view());
            assert(before.states().insert(name@, old_entry.state) =~= before.states());
            assert(before.handlers().insert(name@, old_entry.handler) =~= before.handlers());
            assert(before.active().insert(name@, old_entry.active_invocations as nat) =~= before.active());
        }
        result
    }

    /// Ends one invocation, successful or not: the in-flight count drops by
    /// one, and never below zero.
    pub fn end_invocation(&mut self, name: &str)
        requires
            old(self).wf(),
        ensures
            final(self).wf(),
            final(self).env() == old(self).env(),
            final(self).handlers() == old(self).handlers(),
            final(self).states() == old(self).states(),
            final(self).active() == if old(self).active().contains_key(name@) {
                old(self).active().insert(name@, ended(old(self).active()[name@]))
            } else {
                old(self).active()
            },
    {
        let ghost before = *self;
        match self.functions.remove(name) {
            Some(e) => {
                let mut e = e;
                let ghost old_e = e;
                if e.active_invocations > 0 {
                    e.active_invocations = e.active_invocations - 1;
                }
                let ghost eg = e;
                self.functions.insert(name.to_owned(), e);
                proof {
                    assert(self.functions.view() =~= before.functions.view().insert(name@, eg));
                    before.lemma_put(self, name@, eg);
                    assert(before.functions.view().insert(name@, old_e) =~= before.functions.view());
                    assert(before.states().insert(name@, old_e.state) =~= before.states());
                    assert(before.handlers().insert(name@, old_e.handler) =~= before.handlers());
                }
            },
            None => {
                assert(!before.active().contains_key(name@));
            },
        }
    }

    pub fn handler(&self, name: &str) -> (r: Option<&H>)
        requires
            self.wf(),
        ensures
            r is Some <==> self.handlers().contains_key(name@),
            r matches Some(h) ==> *h == self.handlers()[name@],
    {
        match self.functions.get(name) {
            Some(e) => Some(&e.handler),
            None => None,
        }
    }

    pub fn get_state(&self, name: &str) -> (r: Option<FunctionState>)
        requires
            self.wf(),
        ensures
            r is Some <==> self.states().contains_key(name@),
            r matches Some(s) ==> s == self.states()[name@],
    {
        match self.functions.get(name) {
            Some(e) => Some(e.state),
            None => None,
        }
    }

    pub fn active_invocations(&self, name: &str) -> (r: Option<usize>)
        requires
            self.wf(),
        ensures
            r is Some <==> self.active().contains_key(name@),
            r matches Some(n) ==> n == self.active()[name@],
    {
        match self.functions.get(name) {
            Some(e) => Some(e.active_invocations),
            None => None,
        }
    }

    /// Each registered function with its state, one pair per name.
    pub fn list(&self) -> (r: Vec<(String, FunctionState)>)
        requires
            self.wf(),
        ensures
            r@.len() == self.states().len(),
            forall|i: int|
                0 <= i < r@.len() ==> #[trigger] self.states().contains_key(r@[i].0@)
                    && self.states()[r@[i].0@] == r@[i].1,
            forall|k: Seq<char>|
                #[trigger] self.states().contains_key(k) ==> exists|i: int|
                    0 <= i < r@.len() && r@[i].0@ == k,
    {
        let v = self.functions.as_vec();
        proof {
            self.functions.lemma_pairs();
            assert(self.states().dom() =~= self.functions.view().dom());
        }
        let mut out: Vec<(String, FunctionState)> = Vec::new();
        let mut i: usize = 0;
        while i < v.len()
            invariant
                self.wf(),
                v@ == self.functions.pairs(),
                0 <= i <= v@.len(),
                out@.len() == i,
                forall|j: int| 0 <= j < i ==> (#[trigger] out@[j]).0@ == v@[j].0@ && out@[j].1 == v@[j].1.state,
            decreases v@.len() - i,
        {
            out.push((v[i].0.clone(), v[i].1.state));
            i = i + 1;
        }
        proof {
            assert forall|k: Seq<char>| #[trigger] self.states().contains_key(k) implies exists|i: int|
                0 <= i < out@.len() && out@[i].0@ == k by {
                assert(self.functions.view().contains_key(k));
                let j = choose|j: int| 0 <= j < v@.len() && v@[j].0@ == k;
                assert(out@[j].0@ == k);
            }
        }
        out
    }

    /// Deletes a function and hands back its handler; fails if it is not registered.
    pub fn remove(&mut self, name: &str) -> (r: Result<H, FezzError>)
        requires
            old(self).wf(),
        ensures
            final(self).wf(),
            final(self).env() == old(self).env(),
            r is Ok <==> old(self).states().contains_key(name@),
            r matches Ok(h) ==> h == old(self).handlers()[name@],
            final(self).states() == old(self).states().remove(name@),
            final(self).active() == old(self).active().remove(name@),
            r matches Err(e) ==> e.code == 404 && e.message@ == not_found_text(name@),
    {
        let ghost before = *self;
        let r = match self.functions.remove(name) {
            Some(e) => Ok(e.handler),
            None => Err(not_found(name)),
        };
        assert(self.states() =~= before.states().remove(name@));
        assert(self.active() =~= before.active().remove(name@));
        r
    }
}

/// The in-flight count after one invocation ends.
pub open spec fn ended(n: nat) -> nat {
    if n > 0 {
        (n - 1) as nat
    } else {
        0
    }
}

/// `on_load` runs once for an Unloaded function, and once it has succeeded
/// the function is Ready, a second load asks for no `on_load`, and the
/// invocation that follows is admitted: one `on_load`, then one `fetch`.
pub proof fn lemma_execute_from_unloaded()
    ensures
        load_transition(FunctionState::Unloaded) == Some((FunctionState::Loading, true)),
        loaded_state(true) == FunctionState::Ready,
        load_transition(loaded_state(true)) == Some((FunctionState::Ready, false)),
        admits_invocations(loaded_state(true)),
{
}

/// The in-flight count after a run of invocation events from `n`: `true`
/// for an admitted invocation, `false` for one that ended.
pub open spec fn active_after(n: nat, evs: Seq<bool>) -> nat
    decreases evs.len(),
{
    if evs.len() == 0 {
        n
    } else {
        let m = active_after(n, evs.drop_last());
        if evs.last() {
            m + 1
        } else {
            ended(m)
        }
    }
}

pub open spec fn begins(evs: Seq<bool>) -> nat
    decreases evs.len(),
{
    if evs.len() == 0 {
        0
    } else {
        begins(evs.drop_last()) + if evs.last() { 1nat } else { 0nat }
    }
}

pub open spec fn ends(evs: Seq<bool>) -> nat
    decreases evs.len(),
{
    if evs.len() == 0 {
        0
    } else {
        ends(evs.drop_last()) + if evs.last() { 0nat } else { 1nat }
    }
}

/// No invocation ends before it began: every prefix has at least as many
/// admissions as endings.
pub open spec fn well_nested(evs: Seq<bool>) -> bool {
    forall|i: int| 0 <= i <= evs.len() ==> ends(#[trigger] evs.take(i)) <= begins(evs.take(i))
}

proof fn lemma_active_counts(evs: Seq<bool>)
    requires
        well_nested(evs),
    ensures
        active_after(0, evs) == begins(evs) - ends(evs),
    decreases evs.len(),
{
    if evs.len() > 0 {
        let init = evs.drop_last();
        assert forall|i: int| 0 <= i <= init.len() implies ends(#[trigger] init.take(i)) <= begins(
            init.take(i),
        ) by {
            assert(init.take(i) =~= evs.take(i));
        }
        lemma_active_counts(init);
        assert(evs.take(evs.len() as int) =~= evs);
        assert(evs.take(init.len() as int) =~= init);
    }
}

/// Whatever the interleaving, once every admitted invocation has ended the
/// in-flight count is back to zero.
pub proof fn lemma_active_returns_to_zero(evs: Seq<bool>)
    requires
        well_nested(evs),
        begins(evs) == ends(evs),
    ensures
        active_after(0, evs) == 0,
{
    lemma_active_counts(evs);
}

} // verus!
