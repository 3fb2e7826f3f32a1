//! The attributes a function is declared with (`id = "..."`, `timeout = 60`,
//! ...) and the manifest they give. Reading the attribute tokens is left to
//! the caller; this decides what the items mean.
use crate::manifest::{OwnedFunctionManifest, DEFAULT_TIMEOUT_SECS};
use crate::text::text_eq;
use vstd::prelude::*;

verus! {

/// The value side of one `name = value` item.
#[derive(Debug)]
pub enum AttrValue {
    /// A string literal.
    Str(String),
    /// An integer literal; `None` when it does not fit a `u64`.
    Int(Option<u64>),
    /// Another kind of literal.
    OtherLiteral,
    /// An expression that is not a literal.
    NotLiteral,
}

/// One attribute item.
#[derive(Debug)]
pub enum MetaItem {
    NameValue(String, AttrValue),
    /// Anything but `name = value`.
    Other,
}

#[derive(Debug)]
pub enum AttrError {
    ExpectedNameValue,
    ExpectedLiteral,
    UnknownAttribute(String),
    BadInteger,
    MissingId,
}

/// The attributes read so far; `None` where an attribute was not given.
pub struct Attrs {
    pub id: Option<Seq<char>>,
    pub version: Option<Seq<char>>,
    pub method: Option<Seq<char>>,
    pub path: Option<Seq<char>>,
    pub timeout: Option<u64>,
    pub description: Option<Seq<char>>,
}

pub open spec fn no_attrs() -> Attrs {
    Attrs { id: None, version: None, method: None, path: None, timeout: None, description: None }
}

/// What one item does to the attributes: a known name with a value of its
/// kind sets it, a known name with a literal of another kind is ignored,
/// anything else is an error.
pub open spec fn attr_step(a: Attrs, item: MetaItem) -> Result<Attrs, AttrError> {
    match item {
        MetaItem::Other => Err(AttrError::ExpectedNameValue),
        MetaItem::NameValue(name, v) => {
            let n = name@;
            match v {
                AttrValue::NotLiteral => Err(AttrError::ExpectedLiteral),
                _ => if n == "timeout"@ {
                    match v {
                        AttrValue::Int(Some(t)) => Ok(Attrs { timeout: Some(t), ..a }),
                        AttrValue::Int(None) => Err(AttrError::BadInteger),
                        _ => Ok(a),
                    }
                } else if n == "id"@ || n == "version"@ || n == "method"@ || n == "path"@ || n
                    == "description"@ {
                    match v {
                        AttrValue::Str(s) => Ok(
                            if n == "id"@ {
                                Attrs { id: Some(s@), ..a }
                            } else if n == "version"@ {
                                Attrs { version: Some(s@), ..a }
                            } else if n == "method"@ {
                                Attrs { method: Some(s@), ..a }
                            } else if n == "path"@ {
                                Attrs { path: Some(s@), ..a }
                            } else {
                                Attrs { description: Some(s@), ..a }
                            },
                        ),
                        _ => Ok(a),
                    }
                } else {
                    Err(AttrError::UnknownAttribute(name))
                },
            }
        },
    }
}

pub open spec fn attrs_from(items: Seq<MetaItem>, i: int, a: Attrs) -> Result<Attrs, AttrError>
    decreases items.len() - i,
{
    if i < 0 || i >= items.len() {
        Ok(a)
    } else {
        match attr_step(a, items[i]) {
            Ok(b) => attrs_from(items, i + 1, b),
            Err(e) => Err(e),
        }
    }
}

pub open spec fn or_default(o: Option<Seq<char>>, d: Seq<char>) -> Seq<char> {
    match o {
        Some(s) => s,
        None => d,
    }
}

/// The manifest the attributes give: `id` is required; the others default to
/// version "v1", method "GET", path "/", the default timeout and no description.
pub open spec fn manifest_of(a: Attrs) -> Option<(Seq<char>, Seq<char>, Seq<char>, Seq<char>, u64, Seq<char>)> {
    match a.id {
        None => None,
        Some(id) => Some(
            (
                id,
                or_default(a.version, "v1"@),
                or_default(a.method, "GET"@),
                or_default(a.path, "/"@),
                match a.timeout {
                    Some(t) => t,
                    None => DEFAULT_TIMEOUT_SECS,
                },
                or_default(a.description, Seq::empty()),
            ),
        ),
    }
}

/// Which attribute an item sets.
enum Field {
    Id,
    Version,
    Method,
    Path,
    Description,
}

/// The manifest that a list of attribute items declares.
pub fn manifest_from_attrs(items: Vec<MetaItem>) -> (r: Result<OwnedFunctionManifest, AttrError>)
    ensures
        match attrs_from(items@, 0, no_attrs()) {
            Err(e) => r == Err::<OwnedFunctionManifest, AttrError>(e),
            Ok(a) => match manifest_of(a) {
                None => r matches Err(AttrError::MissingId),
                Some((id, version, method, path, timeout, description)) => r matches Ok(m) && m.id@
                    == id && m.version@ == version && m.method@ == method && m.path@ == path
                    && m.timeout == timeout && m.description@ == description,
            },
        },
{
    let ghost all = items@;
    let mut id: Option<String> = None;
    let mut version: Option<String> = None;
    let mut method: Option<String> = None;
    let mut path: Option<String> = None;
    let mut timeout: Option<u64> = None;
    let mut description: Option<String> = None;
    let mut rest = items;
    let mut rev: Vec<MetaItem> = Vec::new();
    while rest.len() > 0
        invariant
            all == items@,
            rev@.len() + rest@.len() == all.len(),
            rest@ == all.subrange(0, rest@.len() as int),
            forall|i: int| 0 <= i < rev@.len() ==> #[trigger] rev@[i] == all[all.len() - 1 - i],
        decreases rest@.len(),
    {
        let it = rest.pop().unwrap();
        rev.push(it);
    }
    let ghost mut k: int = 0;
    while rev.len() > 0
        invariant
            all == items@,
            rev@.len() + k == all.len(),
            0 <= k <= all.len(),
            forall|i: int| 0 <= i < rev@.len() ==> #[trigger] rev@[i] == all[all.len() - 1 - i],
            attrs_from(all, 0, no_attrs()) == attrs_from(
                all,
                k,
                Attrs {
                    id: crate::wire::opt_str_view(id),
                    version: crate::wire::opt_str_view(version),
                    method: crate::wire::opt_str_view(method),
                    path: crate::wire::opt_str_view(path),
                    timeout,
                    description: crate::wire::opt_str_view(description),
                },
            ),
        decreases rev@.len(),
    {
        let ghost acc = Attrs {
            id: crate::wire::opt_str_view(id),
            version: crate::wire::opt_str_view(version),
            method: crate::wire::opt_str_view(method),
            path: crate::wire::opt_str_view(path),
            timeout,
            description: crate::wire::opt_str_view(description),
        };
        let item = rev.pop().unwrap();
        assert(item == all[k]);
        assert(attrs_from(all, k, acc) == match attr_step(acc, all[k]) {
            Ok(b) => attrs_from(all, k + 1, b),
            Err(e) => Err(e),
        });
        match item {
            MetaItem::Other => {
                {
                    assert(attr_step(acc, all[k]) == Err::<Attrs, AttrError>(AttrError::ExpectedNameValue));
                    return Err(AttrError::ExpectedNameValue);
                }
            },
            MetaItem::NameValue(name, v) => {
                if let AttrValue::NotLiteral = v {
                    {
                    assert(attr_step(acc, all[k]) == Err::<Attrs, AttrError>(AttrError::ExpectedLiteral));
                    return Err(AttrError::ExpectedLiteral);
                }
                }
                let n = name.as_str();
                if text_eq(n, "timeout") {
                    match v {
                        AttrValue::Int(Some(t)) => timeout = Some(t),
                        AttrValue::Int(None) => return Err(AttrError::BadInteger),
                        _ => {},
                    }
                } else {
                    let field = if text_eq(n, "id") {
                        Field::Id
                    } else if text_eq(n, "version") {
                        Field::Version
                    } else if text_eq(n, "method") {
                        Field::Method
                    } else if text_eq(n, "path") {
                        Field::Path
                    } else if text_eq(n, "description") {
                        Field::Description
                    } else {
                        assert(attr_step(acc, all[k]) == Err::<Attrs, AttrError>(AttrError::UnknownAttribute(name)));
                        return Err(AttrError::UnknownAttribute(name));
                    };
                    if let AttrValue::Str(s) = v {
                        match field {
                            Field::Id => id = Some(s),
                            Field::Version => version = Some(s),
                            Field::Method => method = Some(s),
                            Field::Path => path = Some(s),
                            Field::Description => description = Some(s),
                        }
                    }
                }
            },
        }
        proof {
            k = k + 1;
        }
    }
    let id = match id {
        Some(s) => s,
        None => return Err(AttrError::MissingId),
    };
    let version = match version {
        Some(s) => s,
        None => "v1".to_owned(),
    };
    let method = match method {
        Some(s) => s,
        None => "GET".to_owned(),
    };
    let path = match path {
        Some(s) => s,
        None => "/".to_owned(),
    };
    let description = match description {
        Some(s) => s,
        None => String::new(),
    };
    let timeout = match timeout {
        Some(t) => t,
        None => DEFAULT_TIMEOUT_SECS,
    };
    Ok(OwnedFunctionManifest { id, version, method, path, timeout, description })
}

} // verus!
