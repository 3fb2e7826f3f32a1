//! Function manifests: the metadata a function is deployed with.
use vstd::prelude::*;

verus! {

/// Manifest of a function built into the host, with text known at compile time.
#[derive(Debug, Clone, Copy)]
pub struct FunctionManifest {
    /// Unique identifier.
    pub id: &'static str,
    /// Version, such as "v1".
    pub version: &'static str,
    /// HTTP method, such as "GET".
    pub method: &'static str,
    /// URL path pattern.
    pub path: &'static str,
    /// Request timeout in seconds.
    pub timeout: u64,
    pub description: &'static str,
}

/// Default request timeout in seconds.
pub const DEFAULT_TIMEOUT_SECS: u64 = 30;

impl FunctionManifest {
    /// A manifest with the default timeout and no description.
    pub fn new(
        id: &'static str,
        version: &'static str,
        method: &'static str,
        path: &'static str,
    ) -> (m: Self)
        ensures
            m.id == id,
            m.version == version,
            m.method == method,
            m.path == path,
            m.timeout == DEFAULT_TIMEOUT_SECS,
            m.description@ == Seq::<char>::empty(),
    {
        proof {
            reveal_strlit("");
        }
        FunctionManifest { id, version, method, path, timeout: DEFAULT_TIMEOUT_SECS, description: "" }
    }

    pub fn with_timeout(self, timeout: u64) -> (m: Self)
        ensures
            m == (FunctionManifest { timeout, ..self }),
    {
        let mut s = self;
        s.timeout = timeout;
        s
    }

    pub fn with_description(self, description: &'static str) -> (m: Self)
        ensures
            m == (FunctionManifest { description, ..self }),
    {
        let mut s = self;
        s.description = description;
        s
    }

    /// The same manifest with owned text.
    pub fn to_owned(&self) -> (m: OwnedFunctionManifest)
        ensures
            m.id@ == self.id@,
            m.version@ == self.version@,
            m.method@ == self.method@,
            m.path@ == self.path@,
            m.timeout == self.timeout,
            m.description@ == self.description@,
    {
        OwnedFunctionManifest {
            id: self.id.to_owned(),
            version: self.version.to_owned(),
            method: self.method.to_owned(),
            path: self.path.to_owned(),
            timeout: self.timeout,
            description: self.description.to_owned(),
        }
    }
}

impl Default for FunctionManifest {
    /// No id, version "v1", `GET /`, the default timeout.
    fn default() -> (m: Self)
        ensures
            m.id@ == Seq::<char>::empty(),
            m.version@ == seq!['v', '1'],
            m.method@ == seq!['G', 'E', 'T'],
            m.path@ == seq!['/'],
            m.timeout == DEFAULT_TIMEOUT_SECS,
            m.description@ == Seq::<char>::empty(),
    {
        proof {
            reveal_strlit("");
            reveal_strlit("v1");
            reveal_strlit("GET");
            reveal_strlit("/");
        }
        FunctionManifest {
            id: "",
            version: "v1",
            method: "GET",
            path: "/",
            timeout: DEFAULT_TIMEOUT_SECS,
            description: "",
        }
    }
}

/// Manifest with owned text, for manifests read or built at run time.
#[derive(Debug, Clone)]
pub struct OwnedFunctionManifest {
    pub id: String,
    pub version: String,
    pub method: String,
    pub path: String,
    /// Request timeout in seconds.
    pub timeout: u64,
    pub description: String,
}

impl OwnedFunctionManifest {
    /// A manifest with the default timeout and no description.
    pub fn new(id: &str, version: &str, method: &str, path: &str) -> (m: Self)
        ensures
            m.id@ == id@,
            m.version@ == version@,
            m.method@ == method@,
            m.path@ == path@,
            m.timeout == DEFAULT_TIMEOUT_SECS,
            m.description@ == Seq::<char>::empty(),
    {
        OwnedFunctionManifest {
            id: id.to_owned(),
            version: version.to_owned(),
            method: method.to_owned(),
            path: path.to_owned(),
            timeout: DEFAULT_TIMEOUT_SECS,
            description: String::new(),
        }
    }

    pub fn with_timeout(self, timeout: u64) -> (m: Self)
        ensures
            m == (OwnedFunctionManifest { timeout, ..self }),
    {
        let mut s = self;
        s.timeout = timeout;
        s
    }

    pub fn with_description(self, description: &str) -> (m: Self)
        ensures
            m.id == self.id,
            m.version == self.version,
            m.method == self.method,
            m.path == self.path,
            m.timeout == self.timeout,
            m.description@ == description@,
    {
        let mut s = self;
        s.description = description.to_owned();
        s
    }

    /// Field-by-field equality of the text and the timeout.
    pub fn same_as(&self, other: &OwnedFunctionManifest) -> (r: bool)
        ensures
            r == (self.id@ == other.id@ && self.version@ == other.version@ && self.method@
                == other.method@ && self.path@ == other.path@ && self.timeout == other.timeout
                && self.description@ == other.description@),
    {
        self.id == other.id && self.version == other.version && self.method == other.method
            && self.path == other.path && self.timeout == other.timeout && self.description
            == other.description
    }
}

impl Default for OwnedFunctionManifest {
    /// No id, version "v1", `GET /`, the default timeout.
    fn default() -> (m: Self)
        ensures
            m.id@ == Seq::<char>::empty(),
            m.version@ == seq!['v', '1'],
            m.method@ == seq!['G', 'E', 'T'],
            m.path@ == seq!['/'],
            m.timeout == DEFAULT_TIMEOUT_SECS,
            m.description@ == Seq::<char>::empty(),
    {
        proof {
            reveal_strlit("");
            reveal_strlit("v1");
            reveal_strlit("GET");
            reveal_strlit("/");
        }
        FunctionManifest::default().to_owned()
    }
}

} // verus!
