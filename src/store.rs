//! The control-plane store of function metadata, kept in memory. Each
//! change hands back the event that watchers are to be told of.
use crate::manifest::OwnedFunctionManifest;
use crate::strmap::StrMap;
use crate::text::concat3;
use vstd::prelude::*;

verus! {

/// A function as the control plane knows it.
#[derive(Debug, Clone)]
pub struct FunctionEntry {
    pub manifest: OwnedFunctionManifest,
    /// Nodes where the function is available.
    pub nodes: Vec<String>,
    pub enabled: bool,
    /// Last update, in milliseconds since the Unix epoch.
    pub updated_at: u64,
}

/// Milliseconds of a time given in nanoseconds, capped at the largest `u64`.
pub open spec fn millis_of(nanos: u128) -> u64 {
    if nanos / 1000000 > u64::MAX as u128 {
        u64::MAX
    } else {
        (nanos / 1000000) as u64
    }
}

pub fn millis_from_nanos(nanos: u128) -> (r: u64)
    ensures
        r == millis_of(nanos),
{
    let ms = nanos / 1000000;
    if ms > u64::MAX as u128 {
        u64::MAX
    } else {
        ms as u64
    }
}

/// The time now, in milliseconds since the Unix epoch.
pub fn current_timestamp() -> (r: u64)
    ensures
        exists|n: u128| r == millis_of(n),
{
    millis_from_nanos(crate::gateway::unix_nanos())
}

impl FunctionEntry {
    /// An enabled entry on no node, stamped now.
    pub fn new(manifest: OwnedFunctionManifest) -> (e: FunctionEntry)
        ensures
            e.manifest == manifest,
            e.nodes@.len() == 0,
            e.enabled,
    {
        FunctionEntry { manifest, nodes: Vec::new(), enabled: true, updated_at: current_timestamp() }
    }

    /// An entry made at a given time.
    pub fn at(manifest: OwnedFunctionManifest, updated_at: u64) -> (e: FunctionEntry)
        ensures
            e.manifest == manifest,
            e.nodes@.len() == 0,
            e.enabled,
            e.updated_at == updated_at,
    {
        FunctionEntry { manifest, nodes: Vec::new(), enabled: true, updated_at }
    }

    /// Adds a node where the function is available.
    pub fn on_node(self, node_id: &str) -> (e: FunctionEntry)
        ensures
            e.manifest == self.manifest,
            e.nodes@.len() == self.nodes@.len() + 1,
            forall|i: int| 0 <= i < self.nodes@.len() ==> e.nodes@[i] == self.nodes@[i],
            e.nodes@.last()@ == node_id@,
            e.enabled == self.enabled,
            e.updated_at == self.updated_at,
    {
        let mut s = self;
        s.nodes.push(node_id.to_owned());
        s
    }

    pub fn enabled(self, enabled: bool) -> (e: FunctionEntry)
        ensures
            e == (FunctionEntry { enabled, ..self }),
    {
        let mut s = self;
        s.enabled = enabled;
        s
    }
}

/// A change that watchers are told of.
#[derive(Debug, Clone)]
pub enum StoreEvent {
    Added(FunctionEntry),
    Updated(FunctionEntry),
    Removed(String),
}

#[derive(Debug, Clone)]
pub struct StoreError {
    pub message: String,
}

impl StoreError {
    pub fn new(message: &str) -> (e: StoreError)
        ensures
            e.message@ == message@,
    {
        StoreError { message: message.to_owned() }
    }
}

pub open spec fn exists_text(id: Seq<char>) -> Seq<char> {
    "Function '"@ + id + "' already exists"@
}

pub open spec fn missing_text(id: Seq<char>) -> Seq<char> {
    "Function '"@ + id + "' not found"@
}

/// Function entries by id.
pub struct MemoryStore {
    entries: StrMap<FunctionEntry>,
}

impl MemoryStore {
    /// Each entry sits under its manifest's id.
    pub closed spec fn wf(&self) -> bool {
        &&& self.entries.wf()
        &&& forall|k: Seq<char>| #[trigger]
            self.entries.view().contains_key(k) ==> self.entries.view()[k].manifest.id@ == k
    }

    pub closed spec fn view(&self) -> Map<Seq<char>, FunctionEntry> {
        self.entries.view()
    }

    pub fn new() -> (s: MemoryStore)
        ensures
            s.wf(),
            s.view() == Map::<Seq<char>, FunctionEntry>::empty(),
    {
        MemoryStore { entries: StrMap::new() }
    }

    /// Adds an entry under its manifest's id; fails if the id is taken.
    pub fn register(&mut self, entry: FunctionEntry) -> (r: Result<StoreEvent, StoreError>)
        requires
            old(self).wf(),
        ensures
            final(self).wf(),
            r is Ok <==> !old(self).view().contains_key(entry.manifest.id@),
            r is Ok ==> final(self).view() == old(self).view().insert(entry.manifest.id@, entry)
                && r matches Ok(StoreEvent::Added(_)),
            r matches Err(e) ==> e.message@ == exists_text(entry.manifest.id@) && final(self).view()
                == old(self).view(),
    {
        let id = entry.manifest.id.clone();
        if self.entries.contains_key(id.as_str()) {
            return Err(StoreError::new(concat3("Function '", id.as_str(), "' already exists").as_str()));
        }
        let event = StoreEvent::Added(entry.clone());
        self.entries.insert(id, entry);
        Ok(event)
    }

    /// Replaces the entry under its manifest's id; fails if there is none.
    pub fn update(&mut self, entry: FunctionEntry) -> (r: Result<StoreEvent, StoreError>)
        requires
            old(self).wf(),
        ensures
            final(self).wf(),
            r is Ok <==> old(self).view().contains_key(entry.manifest.id@),
            r is Ok ==> final(self).view() == old(self).view().insert(entry.manifest.id@, entry)
                && r matches Ok(StoreEvent::Updated(_)),
            r matches Err(e) ==> e.message@ == missing_text(entry.manifest.id@) && final(self).view()
                == old(self).view(),
    {
        let id = entry.manifest.id.clone();
        if !self.entries.contains_key(id.as_str()) {
            return Err(StoreError::new(concat3("Function '", id.as_str(), "' not found").as_str()));
        }
        let event = StoreEvent::Updated(entry.clone());
        self.entries.insert(id, entry);
        Ok(event)
    }

    /// Removes the entry of a function; fails if there is none.
    pub fn remove(&mut self, function_id: &str) -> (r: Result<StoreEvent, StoreError>)
        requires
            old(self).wf(),
        ensures
            final(self).wf(),
            r is Ok <==> old(self).view().contains_key(function_id@),
            final(self).view() == old(self).view().remove(function_id@),
            r matches Ok(StoreEvent::Removed(id)) ==> id@ == function_id@,
            r is Ok ==> r matches Ok(StoreEvent::Removed(_)),
            r matches Err(e) ==> e.message@ == missing_text(function_id@),
    {
        match self.entries.remove(function_id) {
            Some(_) => Ok(StoreEvent::Removed(function_id.to_owned())),
            None => Err(StoreError::new(concat3("Function '", function_id, "' not found").as_str())),
        }
    }

    pub fn get(&self, function_id: &str) -> (r: Option<&FunctionEntry>)
        requires
            self.wf(),
        ensures
            r is Some <==> self.view().contains_key(function_id@),
            r matches Some(e) ==> *e == self.view()[function_id@],
    {
        self.entries.get(function_id)
    }

    /// Every entry, each once.
    pub fn list(&self) -> (r: Vec<&FunctionEntry>)
        requires
            self.wf(),
        ensures
            r@.len() == self.view().len(),
            forall|i: int|
                0 <= i < r@.len() ==> self.view().contains_key((#[trigger] r@[i]).manifest.id@)
                    && self.view()[r@[i].manifest.id@] == *r@[i],
    {
        let v = self.entries.as_vec();
        proof {
            self.entries.lemma_pairs();
        }
        let mut out: Vec<&FunctionEntry> = Vec::new();
        let mut i: usize = 0;
        while i < v.len()
            invariant
                self.wf(),
                forall|k: Seq<char>| #[trigger]
                    self.view().contains_key(k) ==> self.view()[k].manifest.id@ == k,
                v@ == self.entries.pairs(),
                0 <= i <= v@.len(),
                out@.len() == i,
                forall|j: int| 0 <= j < i ==> *out@[j] == v@[j].1,
                forall|j: int|
                    0 <= j < v@.len() ==> #[trigger] self.view().contains_key(v@[j].0@)
                        && self.view()[v@[j].0@] == v@[j].1,
            decreases v@.len() - i,
        {
            out.push(&v[i].1);
            i = i + 1;
        }
        proof {
            assert forall|i: int| 0 <= i < out@.len() implies self.view().contains_key(
                (#[trigger] out@[i]).manifest.id@,
            ) && self.view()[out@[i].manifest.id@] == *out@[i] by {
                assert(*out@[i] == v@[i].1);
                assert(self.view().contains_key(v@[i].0@));
            }
        }
        out
    }
}

} // verus!
